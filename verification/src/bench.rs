//! The serving benchmark: what it measures, how measurements are summarised, and
//! how reports are laid out.

pub mod measure;
pub mod mixed;
pub mod mixed_run;
pub mod names;
pub mod prompt;
pub mod render;
pub mod report;
pub mod stats;
pub mod table;
pub mod time;
pub mod timings;
pub mod trace;
pub mod workload;
