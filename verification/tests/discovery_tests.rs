use kambo_hive::discovery::{
    discovery_probe, discovery_reply, host_address, is_discovery_probe, parse_discovery_reply, reply_prefix,
    tcp_port_of, DiscoveryError, DISCOVERY_PORT, DISCOVERY_TIMEOUT_SECS,
};

#[test]
fn probe_and_prefix_are_the_fixed_texts() {
    assert_eq!(discovery_probe(), b"KAMBO_HIVE_DISCOVERY_REQUEST".to_vec());
    assert_eq!(reply_prefix(), b"KAMBO_HIVE_HOST_IS_AT:".to_vec());
    assert_eq!(DISCOVERY_PORT, 2901);
    assert_eq!(DISCOVERY_TIMEOUT_SECS, 5);
}

#[test]
fn only_the_exact_probe_is_a_probe() {
    assert!(is_discovery_probe(b"KAMBO_HIVE_DISCOVERY_REQUEST"));
    assert!(!is_discovery_probe(b"KAMBO_HIVE_DISCOVERY_REQUEST "));
    assert!(!is_discovery_probe(b"KAMBO_HIVE_DISCOVERY_REQUES"));
    assert!(!is_discovery_probe(b"KAMBO_HIVE_DISCOVERY_REQUESX"));
    assert!(!is_discovery_probe(b""));
}

#[test]
fn port_is_what_follows_the_last_colon() {
    assert_eq!(tcp_port_of("0.0.0.0:8080"), "8080");
    assert_eq!(tcp_port_of("[::1]:9000"), "9000");
    assert_eq!(tcp_port_of("8080"), "8080");
    assert_eq!(tcp_port_of("host:"), "");
    assert_eq!(tcp_port_of(""), "");
    assert_eq!(tcp_port_of("h\u{f6}st:12"), "12");
}

#[test]
fn host_address_joins_ip_and_port() {
    assert_eq!(host_address("192.168.1.20", "8080"), "192.168.1.20:8080");
    assert_eq!(host_address("", ""), ":");
}

#[test]
fn reply_is_prefix_then_address() {
    let port = tcp_port_of("0.0.0.0:7878");
    let reply = discovery_reply(&host_address("10.0.0.5", &port));
    assert_eq!(reply, b"KAMBO_HIVE_HOST_IS_AT:10.0.0.5:7878".to_vec());
    let address = parse_discovery_reply(&reply).unwrap();
    assert_eq!(address, "10.0.0.5:7878");
    assert_eq!(tcp_port_of(&address), "7878");
}

#[test]
fn reply_address_is_trimmed() {
    let parsed = parse_discovery_reply(b"KAMBO_HIVE_HOST_IS_AT:  10.0.0.5:7878 \r\n");
    assert_eq!(parsed, Ok("10.0.0.5:7878".to_string()));
    assert_eq!(parse_discovery_reply(b"KAMBO_HIVE_HOST_IS_AT:"), Ok(String::new()));
}

#[test]
fn reply_without_prefix_is_invalid() {
    assert_eq!(parse_discovery_reply(b"HELLO 10.0.0.5:7878"), Err(DiscoveryError::InvalidReply));
    assert_eq!(parse_discovery_reply(b"KAMBO_HIVE_HOST_IS_AT"), Err(DiscoveryError::InvalidReply));
    assert_eq!(parse_discovery_reply(b""), Err(DiscoveryError::InvalidReply));
    assert_eq!(parse_discovery_reply(b"KAMBO_HIVE_DISCOVERY_REQUEST"), Err(DiscoveryError::InvalidReply));
}

#[test]
fn reply_with_broken_text_is_refused() {
    let mut reply = b"KAMBO_HIVE_HOST_IS_AT:".to_vec();
    reply.extend_from_slice(&[0xff, 0xfe, 0x31]);
    assert_eq!(parse_discovery_reply(&reply), Err(DiscoveryError::AddressNotText));
}

#[test]
fn non_ascii_address_survives_the_round_trip() {
    let reply = discovery_reply("h\u{f6}st:1");
    assert_eq!(parse_discovery_reply(&reply), Ok("h\u{f6}st:1".to_string()));
}
