//! Planning and driving the extraction of an archive into a destination
//! directory: entry names are resolved to safe paths below the destination,
//! the resolved entries form a plan, and a small state machine hands out the
//! filesystem work one step at a time. `model` states what a completed run
//! leaves on disk.
pub mod path;
pub mod plan;
pub mod engine;
pub mod model;
