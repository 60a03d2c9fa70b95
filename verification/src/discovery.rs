//! Host discovery over UDP broadcast: the probe a worker sends, the reply a
//! host gives, and how each side reads what it receives.

use vstd::prelude::*;
use vstd::slice::slice_subrange;
use vstd::string::StrSliceExecFns;
use vstd::string::StringExecFns;
use vstd::string::StringSliceAdditionalSpecFns;
use vstd::utf8::decode_utf8;
use vstd::utf8::encode_utf8;
use vstd::utf8::valid_utf8;

verus! {

/// The UDP port on which hosts listen for probes.
pub const DISCOVERY_PORT: u16 = 2901;

/// Seconds a worker waits for a reply to its probe.
pub const DISCOVERY_TIMEOUT_SECS: u64 = 5;

/// The probe: the ASCII text `KAMBO_HIVE_DISCOVERY_REQUEST`.
pub open spec fn probe_bytes() -> Seq<u8> {
    seq![
        75u8, 65u8, 77u8, 66u8, 79u8, 95u8, 72u8, 73u8, 86u8, 69u8, 95u8, 68u8, 73u8, 83u8,
        67u8, 79u8, 86u8, 69u8, 82u8, 89u8, 95u8, 82u8, 69u8, 81u8, 85u8, 69u8, 83u8, 84u8,
    ]
}

/// What every reply starts with: the ASCII text `KAMBO_HIVE_HOST_IS_AT:`.
pub open spec fn reply_prefix_bytes() -> Seq<u8> {
    seq![
        75u8, 65u8, 77u8, 66u8, 79u8, 95u8, 72u8, 73u8, 86u8, 69u8, 95u8, 72u8, 79u8, 83u8,
        84u8, 95u8, 73u8, 83u8, 95u8, 65u8, 84u8, 58u8,
    ]
}

/// Why a datagram is no usable reply.
#[derive(Debug, PartialEq, Eq, Clone, Copy, Structural)]
pub enum DiscoveryError {
    /// It does not start with the reply prefix.
    InvalidReply,
    /// What follows the prefix is not UTF-8 text.
    AddressNotText,
}

/// The text that `str::trim` makes of a text: the same characters without
/// the white space at either end.
pub uninterp spec fn trimmed_text(text: Seq<char>) -> Seq<char>;

/// Whether `data` begins with `prefix`.
pub open spec fn begins_with(data: Seq<u8>, prefix: Seq<u8>) -> bool {
    prefix.len() <= data.len() && data.subrange(0, prefix.len() as int) == prefix
}

/// What a datagram means to a worker that waits for a reply: the address
/// that follows the prefix, trimmed, or the reason why there is none.
pub open spec fn reply_meaning(datagram: Seq<u8>) -> Result<Seq<char>, DiscoveryError> {
    if !begins_with(datagram, reply_prefix_bytes()) {
        Err(DiscoveryError::InvalidReply)
    } else {
        let rest = datagram.subrange(reply_prefix_bytes().len() as int, datagram.len() as int);
        if valid_utf8(rest) {
            Ok(trimmed_text(decode_utf8(rest)))
        } else {
            Err(DiscoveryError::AddressNotText)
        }
    }
}

/// Where the last part of `text` begins when `text` is cut at every colon:
/// behind its last colon, or at its start where it has none.
pub open spec fn last_part_start(text: Seq<char>) -> int
    decreases text.len(),
{
    if text.len() == 0 {
        0
    } else if text.last() == ':' {
        text.len() as int
    } else {
        last_part_start(text.drop_last())
    }
}

/// The part of a bind address that names the port: what follows its last
/// colon, or all of it where it has none.
pub open spec fn port_part(bind_addr: Seq<char>) -> Seq<char> {
    bind_addr.subrange(last_part_start(bind_addr), bind_addr.len() as int)
}

/// The port part holds no colon, and the address is either the port part
/// alone or ends in a colon and the port part.
pub proof fn lemma_port_part(bind_addr: Seq<char>)
    ensures
        0 <= last_part_start(bind_addr) <= bind_addr.len(),
        !port_part(bind_addr).contains(':'),
        last_part_start(bind_addr) == 0 ==> port_part(bind_addr) == bind_addr,
        last_part_start(bind_addr) > 0 ==> bind_addr[last_part_start(bind_addr) - 1] == ':',
    decreases bind_addr.len(),
{
    if bind_addr.len() == 0 {
        assert(port_part(bind_addr) =~= bind_addr);
    } else if bind_addr.last() == ':' {
        assert(port_part(bind_addr) =~= Seq::<char>::empty());
    } else {
        let front = bind_addr.drop_last();
        lemma_port_part(front);
        let start = last_part_start(front);
        assert(port_part(bind_addr) =~= port_part(front).push(bind_addr.last()));
        if port_part(bind_addr).contains(':') {
            let i = choose|i: int| 0 <= i < port_part(bind_addr).len() && port_part(bind_addr)[i] == ':';
            if i < port_part(front).len() {
                assert(port_part(front)[i] == ':');
                assert(port_part(front).contains(':'));
            }
        }
        if start == 0 {
            assert(port_part(bind_addr) =~= bind_addr);
        } else {
            assert(bind_addr[start - 1] == front[start - 1]);
        }
    }
}

/// Reads bytes as text with `std::str::from_utf8`, which accepts exactly the
/// well-formed UTF-8 sequences and then yields the characters they encode.
#[verifier::external_body]
fn text_of(bytes: &[u8]) -> (text: Option<&str>)
    ensures
        text is Some <==> valid_utf8(bytes@),
        text is Some ==> text->0@ == decode_utf8(bytes@),
{
    std::str::from_utf8(bytes).ok()
}

/// Trims a text with `str::trim`.
#[verifier::external_body]
fn trim_text(text: &str) -> (trimmed: &str)
    ensures
        trimmed@ == trimmed_text(text@),
{
    text.trim()
}

/// Whether `data` begins with `prefix`.
fn has_prefix(data: &[u8], prefix: &Vec<u8>) -> (yes: bool)
    ensures
        yes == begins_with(data@, prefix@),
{
    if data.len() < prefix.len() {
        return false;
    }
    let mut at: usize = 0;
    while at < prefix.len()
        invariant
            at <= prefix@.len() <= data@.len(),
            forall|i: int| 0 <= i < at ==> data@[i] == prefix@[i],
        decreases prefix@.len() - at,
    {
        if data[at] != prefix[at] {
            assert(data@.subrange(0, prefix@.len() as int)[at as int] != prefix@[at as int]);
            return false;
        }
        at += 1;
    }
    assert(data@.subrange(0, prefix@.len() as int) =~= prefix@);
    true
}

/// The probe a worker broadcasts.
pub fn discovery_probe() -> (probe: Vec<u8>)
    ensures
        probe@ == probe_bytes(),
{
    vec![
        75u8, 65u8, 77u8, 66u8, 79u8, 95u8, 72u8, 73u8, 86u8, 69u8, 95u8, 68u8, 73u8, 83u8,
        67u8, 79u8, 86u8, 69u8, 82u8, 89u8, 95u8, 82u8, 69u8, 81u8, 85u8, 69u8, 83u8, 84u8,
    ]
}

/// The bytes every reply starts with.
pub fn reply_prefix() -> (prefix: Vec<u8>)
    ensures
        prefix@ == reply_prefix_bytes(),
{
    vec![
        75u8, 65u8, 77u8, 66u8, 79u8, 95u8, 72u8, 73u8, 86u8, 69u8, 95u8, 72u8, 79u8, 83u8,
        84u8, 95u8, 73u8, 83u8, 95u8, 65u8, 84u8, 58u8,
    ]
}

/// Whether a datagram is the probe, byte for byte.
pub fn is_discovery_probe(datagram: &[u8]) -> (yes: bool)
    ensures
        yes == (datagram@ == probe_bytes()),
{
    let probe = discovery_probe();
    if datagram.len() != probe.len() {
        return false;
    }
    let yes = has_prefix(datagram, &probe);
    assert(datagram@.subrange(0, probe@.len() as int) =~= datagram@);
    yes
}

/// The port part of the address the host's TCP listener is bound to.
pub fn tcp_port_of(bind_addr: &str) -> (port: String)
    ensures
        port@ == port_part(bind_addr@),
{
    let len = bind_addr.unicode_len();
    let mut start: usize = len;
    assert(bind_addr@.take(len as int) =~= bind_addr@);
    while start > 0 && bind_addr.get_char(start - 1) != ':'
        invariant
            start <= len,
            len == bind_addr@.len(),
            last_part_start(bind_addr@) == last_part_start(bind_addr@.take(start as int)),
        decreases start,
    {
        assert(bind_addr@.take(start as int).drop_last() =~= bind_addr@.take(start - 1));
        start -= 1;
    }
    proof {
        assert(bind_addr@.take(len as int) =~= bind_addr@);
        if start > 0 {
            assert(bind_addr@.take(start as int).last() == ':');
        }
    }
    bind_addr.substring_char(start, len).to_owned()
}

/// The address a host announces: its IP as seen from the asking worker, a
/// colon, and the port of its TCP listener.
pub fn host_address(local_ip: &str, tcp_port: &str) -> (address: String)
    ensures
        address@ == local_ip@ + seq![':'] + tcp_port@,
{
    let mut address = local_ip.to_owned();
    address.append(":");
    address.append(tcp_port);
    proof {
        reveal_strlit(":");
        assert(":"@ =~= seq![':']);
    }
    address
}

/// The datagram a host answers a probe with: the prefix, then the address as
/// UTF-8 text.
pub fn discovery_reply(address: &str) -> (datagram: Vec<u8>)
    ensures
        datagram@ == reply_prefix_bytes() + encode_utf8(address@),
{
    let mut datagram = reply_prefix();
    let text = address.as_bytes();
    let mut at: usize = 0;
    while at < text.len()
        invariant
            at <= text@.len(),
            text@ == encode_utf8(address@),
            datagram@ == reply_prefix_bytes() + text@.take(at as int),
        decreases text@.len() - at,
    {
        datagram.push(text[at]);
        assert(text@.take(at as int).push(text@[at as int]) =~= text@.take(at + 1));
        assert(datagram@ =~= reply_prefix_bytes() + text@.take(at + 1));
        at += 1;
    }
    assert(text@.take(at as int) =~= text@);
    datagram
}

/// Reads the host's address out of a datagram received in answer to a probe.
pub fn parse_discovery_reply(datagram: &[u8]) -> (outcome: Result<String, DiscoveryError>)
    ensures
        match reply_meaning(datagram@) {
            Ok(address) => outcome is Ok && outcome->Ok_0@ == address,
            Err(reason) => outcome == Err::<String, DiscoveryError>(reason),
        },
{
    let prefix = reply_prefix();
    if !has_prefix(datagram, &prefix) {
        return Err(DiscoveryError::InvalidReply);
    }
    let rest = slice_subrange(datagram, prefix.len(), datagram.len());
    match text_of(rest) {
        Some(text) => Ok(trim_text(text).to_owned()),
        None => Err(DiscoveryError::AddressNotText),
    }
}

/// A worker that receives the reply a host made for an address reads that
/// address out of it, trimmed.
pub proof fn lemma_reply_is_understood(address: Seq<char>)
    ensures
        reply_meaning(reply_prefix_bytes() + encode_utf8(address)) == Ok::<Seq<char>, DiscoveryError>(
            trimmed_text(address),
        ),
{
    let datagram = reply_prefix_bytes() + encode_utf8(address);
    let cut = reply_prefix_bytes().len() as int;
    assert(datagram.subrange(0, cut) =~= reply_prefix_bytes());
    assert(datagram.subrange(cut, datagram.len() as int) =~= encode_utf8(address));
    vstd::utf8::encode_utf8_valid_utf8(address);
    vstd::utf8::encode_utf8_decode_utf8(address);
}

} // verus!
