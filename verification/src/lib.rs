//! A single-process, fully verified model of a distributed task-execution
//! runtime: a global scheduler that tracks worker liveness, a per-worker
//! object store holding materialized future values, a task executor with a
//! registry of built-in functions, and a lineage layer that replays a failed
//! call exactly once from its parent call frame.

pub mod cluster;
pub mod errors;
pub mod laws;
pub mod prim;
pub mod scheduler;
pub mod sort;
pub mod store;
pub mod tasks;
pub mod value;
