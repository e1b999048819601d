//! Request scheduling: batching, admission under a KV budget, chunked prefill
//! and the decisions of one scheduler iteration.

pub mod admission;
pub mod driver;
pub mod history;
pub mod phase_trace;
pub mod prefetch;
pub mod prefill;
pub mod request;
pub mod step;
