//! The interactive studio: the job that packs an object or the links of a
//! robot, what the studio holds and does, and what its panels show.

pub mod document;
pub mod form;
pub mod frame;
pub mod job;
pub mod panel;
pub mod scene;
pub mod slot;
pub mod state;
