//! The local engine bridge: demultiplexing the engine's shared token stream into
//! per-request outputs, and the decisions around starting and aborting requests.

pub mod dispatch;
pub mod output;
pub mod reduce;
pub mod run;
pub mod start;
pub mod stats;
pub mod streams;
pub mod wire;
