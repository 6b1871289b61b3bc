//! The HTTP API: form and query decoding, error replies, robot-mode sessions,
//! and what every endpoint answers.

pub mod error;
pub mod forms;
pub mod files;
pub mod sessions;
pub mod object_mode;
pub mod robot_mode;
pub mod library;
pub mod live;
