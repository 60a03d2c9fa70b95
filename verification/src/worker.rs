//! The worker's side of the conversation: what it sends, and what it does
//! with each answer.

use vstd::prelude::*;
use crate::protocol::Request;
use crate::protocol::Response;
use crate::task::Task;
use crate::task::TaskResult;

verus! {

/// Seconds a worker waits before it tries to reach the host again, whether
/// the last attempt failed or an established connection broke.
pub const RECONNECT_DELAY_SECS: u64 = 5;

/// Seconds a worker waits before it asks again, once told that no task waits.
pub const POLL_INTERVAL_SECS: u64 = 2;

/// What the worker does next.
#[derive(Debug)]
pub enum WorkerAction {
    /// Run the task, then report its result.
    Execute { task: Task },
    /// Sleep for so many seconds, then ask again.
    Wait { seconds: u64 },
    /// Ask again at once.
    AskAgain,
}

/// Why a worker's connection to the host ends.
#[derive(Debug, PartialEq, Eq, Clone, Copy, Structural)]
pub enum LinkError {
    /// The host closed the connection.
    HostDisconnected,
}

/// The request for work of the worker `worker_id`.
pub fn task_request(worker_id: u128) -> (request: Request)
    ensures
        request == (Request::RequestTask { worker_id }),
{
    Request::RequestTask { worker_id }
}

/// The report of `result` by the worker `worker_id`.
pub fn result_report(worker_id: u128, result: TaskResult) -> (request: Request)
    ensures
        request == (Request::ReportResult { worker_id, result }),
{
    Request::ReportResult { worker_id, result }
}

/// What each answer of the host means to the worker.
pub open spec fn reaction(response: Response) -> WorkerAction {
    match response {
        Response::AssignTask { task } => WorkerAction::Execute { task },
        Response::NoTaskAvailable => WorkerAction::Wait { seconds: POLL_INTERVAL_SECS },
        Response::Ack => WorkerAction::AskAgain,
        Response::Command { command_type, payload } => WorkerAction::AskAgain,
    }
}

/// Decides what the worker does with the host's answer: a task is run, an
/// empty queue is waited out, and anything else is taken note of and passed
/// over.
pub fn react_to_response(response: Response) -> (action: WorkerAction)
    ensures
        action == reaction(response),
{
    match response {
        Response::AssignTask { task } => WorkerAction::Execute { task },
        Response::NoTaskAvailable => WorkerAction::Wait { seconds: POLL_INTERVAL_SECS },
        Response::Ack => WorkerAction::AskAgain,
        Response::Command { command_type, payload } => WorkerAction::AskAgain,
    }
}

/// Decides from the number of bytes a line read returned whether the host is
/// still there.
pub fn check_line_read(bytes_read: usize) -> (outcome: Result<(), LinkError>)
    ensures
        outcome is Ok <==> bytes_read > 0,
        outcome is Err ==> outcome == Err::<(), LinkError>(LinkError::HostDisconnected),
{
    if bytes_read == 0 {
        Err(LinkError::HostDisconnected)
    } else {
        Ok(())
    }
}

} // verus!
