//! Tensor-parallel execution: command gates, failure poisoning, the checks on
//! plans and worker responses, and per-rank request state.

pub mod error;
pub mod executor;
pub mod gate;
pub mod plan;
pub mod responses;
pub mod worker;
