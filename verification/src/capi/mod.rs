//! The C API's decisions: status codes and messages, buffer sizes, log lines,
//! the life of a packing run, and what readers see of it.

pub mod handles;
pub mod log;
pub mod run;
pub mod status;
