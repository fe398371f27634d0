//! The tasks of the tool, each as a planner: what the task decides is
//! computed here, and the caller carries it out.

pub mod import;
pub mod rename;
pub mod rename2;
pub mod tidyup;
