//! Engine of a personal daily task timer: an ordered queue of tasks with
//! estimated and spent durations, a mode state machine for editing and
//! working sessions, a schedule projector that turns the queue into
//! render rows with ETA labels, and a persistence codec for the task list.
//!
//! All time values are plain seconds. Instants are seconds since the local
//! midnight; the surrounding program supplies "now" explicitly, so every
//! computation here is a deterministic function of its arguments.
use vstd::prelude::*;

pub mod codec;
pub mod engine;
pub mod mode;
pub mod project;
pub mod queue;
pub mod task;
pub mod text;
pub mod timefmt;

verus! {

/// Errors surfaced by the engine.
///
/// `OutOfRange` comes from an index-based queue operation whose index is
/// not below the queue length. `PersistenceUnavailable` marks a stored
/// task list that could not be decoded (or, in the surrounding program,
/// a file that could not be read or written).
#[derive(Clone, Copy, Debug, PartialEq, Eq, Structural)]
pub enum EngineError {
    OutOfRange,
    PersistenceUnavailable,
}

} // verus!
