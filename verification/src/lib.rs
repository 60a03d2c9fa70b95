//! Host/worker task distribution: the scheduler that hands out runs of named
//! graphs, the store that collects their results, and the decisions behind the
//! wire protocol, the worker loop and host discovery.

pub mod task;
pub mod scheduler;
pub mod results;
pub mod protocol;
pub mod worker;
pub mod discovery;
pub mod report;
