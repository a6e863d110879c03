//! A periodic-task scheduler, as a verified core.
//!
//! The crate holds the decisions of the scheduler: when a group of tasks
//! fires next, which launch a task accepts or rejects, what becomes of a
//! finished execution and of the statistics. Processes, threads, files and
//! sockets are driven by the caller, which reports back what happened.

pub mod command;
pub mod environment;
pub mod group;
pub mod queries;
pub mod task;
pub mod text;
pub mod utils;
