//! The entities that host and worker exchange.

use vstd::prelude::*;

verus! {

/// One run of a graph. Its identity is `id`, a 128-bit UUID value.
#[derive(Debug)]
pub struct Task {
    pub id: u128,
    pub graph_id: String,
    pub run_number: u32,
    pub ag_config: String,
}

/// The bits of a UUID that carry its version and variant.
pub open spec fn uuid_layout_bits() -> u128 {
    0x0000_0000_0000_F000_C000_0000_0000_0000u128
}

/// What those bits hold in a random (version 4, RFC variant) UUID.
pub open spec fn uuid_v4_layout() -> u128 {
    0x0000_0000_0000_4000_8000_0000_0000_0000u128
}

/// Whether `id` is laid out as a version 4 UUID.
pub open spec fn is_v4_uuid(id: u128) -> bool {
    id & uuid_layout_bits() == uuid_v4_layout()
}

/// Calls `uuid::Uuid::new_v4` and hands the identifier back as the 128-bit
/// number `Uuid::as_u128` gives. The value is random; all that is claimed is
/// that its version and variant bits are those of a version 4 UUID, which
/// `new_v4` sets by masking.
#[verifier::external_body]
fn fresh_uuid() -> (id: u128)
    ensures
        is_v4_uuid(id),
{
    uuid::Uuid::new_v4().as_u128()
}

impl Task {
    /// A task for run `run_number` of `graph_id`, under a freshly drawn id.
    pub fn new(graph_id: String, run_number: u32, ag_config: String) -> (task: Task)
        ensures
            task.graph_id == graph_id,
            task.run_number == run_number,
            task.ag_config == ag_config,
            is_v4_uuid(task.id),
    {
        Task { id: fresh_uuid(), graph_id, run_number, ag_config }
    }

    /// Whether the value stands for run `run_number` of graph `graph_id` with
    /// configuration `ag_config`, whatever its id.
    pub open spec fn describes(&self, graph_id: Seq<char>, run_number: int, ag_config: Seq<char>) -> bool {
        &&& self.graph_id@ == graph_id
        &&& self.run_number == run_number
        &&& self.ag_config@ == ag_config
    }
}

impl Clone for Task {
    fn clone(&self) -> (copy: Task)
        ensures
            copy == *self,
    {
        Task {
            id: self.id,
            graph_id: self.graph_id.clone(),
            run_number: self.run_number,
            ag_config: self.ag_config.clone(),
        }
    }
}

/// What a worker reports for one task. `fitness_bits` is the IEEE 754 bit
/// pattern of the fitness score, carried through unread.
#[derive(Debug)]
pub struct TaskResult {
    pub task_id: u128,
    pub graph_id: String,
    pub worker_id: u128,
    pub fitness_bits: u64,
    pub solution_data: Vec<u8>,
    pub interations_run: u32,
    pub processing_time_ms: u64,
}

impl Clone for TaskResult {
    fn clone(&self) -> (copy: TaskResult)
        ensures
            copy.task_id == self.task_id,
            copy.graph_id == self.graph_id,
            copy.worker_id == self.worker_id,
            copy.fitness_bits == self.fitness_bits,
            copy.solution_data@ == self.solution_data@,
            copy.interations_run == self.interations_run,
            copy.processing_time_ms == self.processing_time_ms,
    {
        TaskResult {
            task_id: self.task_id,
            graph_id: self.graph_id.clone(),
            worker_id: self.worker_id,
            fitness_bits: self.fitness_bits,
            solution_data: self.solution_data.clone(),
            interations_run: self.interations_run,
            processing_time_ms: self.processing_time_ms,
        }
    }
}

/// The execution capability: given a task and the worker's identity, produce
/// its result. Implemented by whoever supplies the algorithm.
pub trait GARunner: Send + Sync + 'static {
    fn run(&self, task: Task, worker_id: u128) -> TaskResult;
}

} // verus!
