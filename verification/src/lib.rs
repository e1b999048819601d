//! The host-side logic of an LLM inference stack.
#![allow(unused_imports)]

pub mod arith;
pub mod bench;
pub mod bridge;
pub mod decode;
pub mod deepseek;
pub mod eagle3;
pub mod engine;
pub mod float_bits;
pub mod load;
pub mod metrics;
pub mod paths;
pub mod scheduler;
pub mod text;
pub mod toolkit;
pub mod tp;
pub mod tracing;
