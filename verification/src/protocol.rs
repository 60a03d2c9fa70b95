//! The messages of the wire protocol and the host's answer to each request.

use vstd::prelude::*;
use crate::results::ResultAggregator;
use crate::results::StoreError;
use crate::scheduler::TaskManager;
use crate::task::Task;
use crate::task::TaskResult;

verus! {

/// What a worker sends.
#[derive(Debug)]
pub enum Request {
    RequestTask { worker_id: u128 },
    ReportResult { worker_id: u128, result: TaskResult },
    Heartbeat { worker_id: u128 },
}

/// What the host answers.
#[derive(Debug)]
pub enum Response {
    AssignTask { task: Task },
    NoTaskAvailable,
    Ack,
    Command { command_type: String, payload: String },
}

/// Why a connection handler gives up on its connection.
#[derive(Debug, PartialEq, Eq, Clone, Copy, Structural)]
pub enum HandlerError {
    /// A result was reported for a task that no worker holds.
    TaskNotAssigned { task_id: u128 },
    /// The result store refused the result.
    Store { cause: StoreError },
}

/// What the handler does with the line it has just read.
#[derive(Debug, PartialEq, Eq, Clone, Copy, Structural)]
pub enum LineStep {
    /// Nothing was read: the peer has closed, the handler ends cleanly.
    Finish,
    /// A line was read: decode it and answer.
    Decode,
}

/// The byte that ends every message on the wire.
pub open spec fn line_end() -> u8 {
    10u8
}

/// Decides from the number of bytes a line read returned whether the peer is
/// gone.
pub fn after_line_read(bytes_read: usize) -> (step: LineStep)
    ensures
        step == if bytes_read == 0 {
            LineStep::Finish
        } else {
            LineStep::Decode
        },
{
    if bytes_read == 0 {
        LineStep::Finish
    } else {
        LineStep::Decode
    }
}

/// One encoded message as it goes on the wire: its bytes, then the line end.
pub fn frame_message(encoded: &[u8]) -> (frame: Vec<u8>)
    ensures
        frame@ == encoded@.push(line_end()),
{
    let mut frame: Vec<u8> = Vec::new();
    let mut at: usize = 0;
    while at < encoded.len()
        invariant
            at <= encoded@.len(),
            frame@ == encoded@.take(at as int),
        decreases encoded@.len() - at,
    {
        frame.push(encoded[at]);
        assert(encoded@.take(at as int).push(encoded@[at as int]) =~= encoded@.take(at + 1));
        at += 1;
    }
    assert(encoded@.take(at as int) =~= encoded@);
    frame.push(10u8);
    frame
}

/// Answers a request for work: the next task as the scheduler's strategy
/// picks it, or word that none waits.
pub fn answer_task_request(scheduler: &mut TaskManager, worker_id: u128) -> (response: Response)
    ensures
        old(scheduler)@.pending.len() == 0 ==> response == Response::NoTaskAvailable
            && final(scheduler)@ == old(scheduler)@,
        old(scheduler)@.pending.len() > 0 ==> exists|index: int|
            #![trigger old(scheduler)@.may_pick(index)]
            old(scheduler)@.may_pick(index) && response == (Response::AssignTask {
                task: old(scheduler)@.pending[index],
            }) && final(scheduler)@ == old(scheduler)@.assign_at(index, worker_id),
        old(scheduler)@.consistent() ==> final(scheduler)@.consistent(),
{
    match scheduler.get_next_task(worker_id) {
        Some(task) => Response::AssignTask { task },
        None => Response::NoTaskAvailable,
    }
}

/// What is left to do once the scheduler has dealt with a request.
#[derive(Debug)]
pub enum Dispatch {
    /// Send this answer.
    Reply { response: Response },
    /// Record this result in the store, then acknowledge.
    Record { result: TaskResult },
}

/// The scheduler's part of a request, for which the scheduler alone is
/// needed: a request for work is answered from the queue, a report completes
/// its task or is refused, and a heartbeat is acknowledged.
pub fn begin_request(scheduler: &mut TaskManager, request: Request) -> (outcome: Result<Dispatch, HandlerError>)
    ensures
        old(scheduler)@.consistent() ==> final(scheduler)@.consistent(),
        match request {
            Request::RequestTask { worker_id } => {
                &&& old(scheduler)@.pending.len() == 0 ==> outcome == Ok::<Dispatch, HandlerError>(
                    Dispatch::Reply { response: Response::NoTaskAvailable },
                ) && final(scheduler)@ == old(scheduler)@
                &&& old(scheduler)@.pending.len() > 0 ==> exists|index: int|
                    #![trigger old(scheduler)@.may_pick(index)]
                    old(scheduler)@.may_pick(index) && outcome == Ok::<Dispatch, HandlerError>(
                        Dispatch::Reply { response: Response::AssignTask { task: old(scheduler)@.pending[index] } },
                    ) && final(scheduler)@ == old(scheduler)@.assign_at(index, worker_id)
            },
            Request::ReportResult { worker_id, result } => {
                &&& final(scheduler)@ == old(scheduler)@.complete(result.task_id)
                &&& outcome == if old(scheduler)@.assigned.contains_key(result.task_id) {
                    Ok::<Dispatch, HandlerError>(Dispatch::Record { result })
                } else {
                    Err::<Dispatch, HandlerError>(HandlerError::TaskNotAssigned { task_id: result.task_id })
                }
            },
            Request::Heartbeat { worker_id } => {
                &&& final(scheduler)@ == old(scheduler)@
                &&& outcome == Ok::<Dispatch, HandlerError>(Dispatch::Reply { response: Response::Ack })
            },
        },
{
    match request {
        Request::RequestTask { worker_id } => Ok(
            Dispatch::Reply { response: answer_task_request(scheduler, worker_id) },
        ),
        Request::ReportResult { worker_id, result } => {
            let task_id = result.task_id;
            match scheduler.mark_task_completed(task_id) {
                Err(_) => Err(HandlerError::TaskNotAssigned { task_id }),
                Ok(()) => Ok(Dispatch::Record { result }),
            }
        },
        Request::Heartbeat { worker_id } => Ok(Dispatch::Reply { response: Response::Ack }),
    }
}

/// The store's part of a request, for which the store alone is needed: an
/// answer is passed on, a result is recorded and acknowledged.
pub fn finish_request(store: &mut ResultAggregator, dispatch: Dispatch) -> (outcome: Result<Response, HandlerError>)
    requires
        old(store).wf(),
    ensures
        final(store).wf(),
        match dispatch {
            Dispatch::Reply { response } => outcome == Ok::<Response, HandlerError>(response) && final(store)@
                == old(store)@,
            Dispatch::Record { result } => if old(store)@.total < usize::MAX {
                outcome == Ok::<Response, HandlerError>(Response::Ack) && final(store)@ == old(store)@.record(
                    result,
                )
            } else {
                outcome == Err::<Response, HandlerError>(HandlerError::Store { cause: StoreError::CountExhausted })
                    && final(store)@ == old(store)@
            },
        },
{
    match dispatch {
        Dispatch::Reply { response } => Ok(response),
        Dispatch::Record { result } => match store.add_result(result) {
            Err(cause) => Err(HandlerError::Store { cause }),
            Ok(()) => Ok(Response::Ack),
        },
    }
}

/// The host's answer to one decoded request, and what the request does to
/// scheduler and store: the scheduler's part, then the store's. A reported
/// result is recorded only if a worker held its task, and a heartbeat is
/// acknowledged and changes nothing.
pub fn handle_request(scheduler: &mut TaskManager, store: &mut ResultAggregator, request: Request) -> (outcome:
    Result<Response, HandlerError>)
    requires
        old(store).wf(),
    ensures
        final(store).wf(),
        old(scheduler)@.consistent() ==> final(scheduler)@.consistent(),
        match request {
            Request::RequestTask { worker_id } => {
                &&& final(store)@ == old(store)@
                &&& old(scheduler)@.pending.len() == 0 ==> outcome == Ok::<Response, HandlerError>(
                    Response::NoTaskAvailable,
                ) && final(scheduler)@ == old(scheduler)@
                &&& old(scheduler)@.pending.len() > 0 ==> exists|index: int|
                    #![trigger old(scheduler)@.may_pick(index)]
                    old(scheduler)@.may_pick(index) && outcome == Ok::<Response, HandlerError>(
                        Response::AssignTask { task: old(scheduler)@.pending[index] },
                    ) && final(scheduler)@ == old(scheduler)@.assign_at(index, worker_id)
            },
            Request::ReportResult { worker_id, result } => {
                &&& final(scheduler)@ == old(scheduler)@.complete(result.task_id)
                &&& !old(scheduler)@.assigned.contains_key(result.task_id) ==> outcome == Err::<
                    Response,
                    HandlerError,
                >(HandlerError::TaskNotAssigned { task_id: result.task_id }) && final(store)@ == old(store)@
                &&& old(scheduler)@.assigned.contains_key(result.task_id) && old(store)@.total == usize::MAX
                    ==> outcome == Err::<Response, HandlerError>(
                    HandlerError::Store { cause: StoreError::CountExhausted },
                ) && final(store)@ == old(store)@
                &&& old(scheduler)@.assigned.contains_key(result.task_id) && old(store)@.total < usize::MAX
                    ==> outcome == Ok::<Response, HandlerError>(Response::Ack) && final(store)@ == old(
                    store,
                )@.record(result)
            },
            Request::Heartbeat { worker_id } => {
                &&& outcome == Ok::<Response, HandlerError>(Response::Ack)
                &&& final(scheduler)@ == old(scheduler)@
                &&& final(store)@ == old(store)@
            },
        },
{
    match begin_request(scheduler, request) {
        Ok(dispatch) => finish_request(store, dispatch),
        Err(error) => Err(error),
    }
}

} // verus!
