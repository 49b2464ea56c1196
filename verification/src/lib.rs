//! Verified decision core of a parallel EVM block executor: access
//! classification, per-access fencing verbs, work-stealing task rings,
//! location presence filters and block-level instrumentation counters.

pub mod mv_memory;
pub mod scheduler;
pub mod types;
pub mod specfence;
pub mod validation;
