//! The task entity: a single work item with a planned duration and the
//! actual time spent on it so far.
use vstd::prelude::*;

verus! {

/// Floor for an estimate that has been adjusted: 15 minutes in seconds.
pub const MIN_ESTIMATE_SECONDS: i64 = 900;

/// Estimate given to the seed tasks on first run: 30 minutes in seconds.
pub const DEFAULT_ESTIMATE_SECONDS: i64 = 1800;

/// Mathematical model of a task: the field values as unbounded integers.
pub struct TaskView {
    pub text: Seq<char>,
    pub seconds_estimated: int,
    pub seconds_spent: int,
    pub done: bool,
}

impl TaskView {
    /// Durations are never negative.
    pub open spec fn wf(self) -> bool {
        self.seconds_estimated >= 0 && self.seconds_spent >= 0
    }
}

/// A single schedulable work item.
#[derive(Debug, Clone, PartialEq)]
pub struct Task {
    pub text: String,
    pub seconds_estimated: i64,
    pub seconds_spent: i64,
    pub done: bool,
}

impl View for Task {
    type V = TaskView;

    open spec fn view(&self) -> TaskView {
        TaskView {
            text: self.text@,
            seconds_estimated: self.seconds_estimated as int,
            seconds_spent: self.seconds_spent as int,
            done: self.done,
        }
    }
}

impl Task {
    /// A fresh task as the new-task intent appends it: empty text, the
    /// floor estimate, nothing spent, not done.
    pub fn new_blank() -> (t: Task)
        ensures
            t@.text == Seq::<char>::empty(),
            t@.seconds_estimated == MIN_ESTIMATE_SECONDS as int,
            t@.seconds_spent == 0,
            !t@.done,
            t@.wf(),
    {
        Task { text: String::new(), seconds_estimated: MIN_ESTIMATE_SECONDS, seconds_spent: 0, done: false }
    }
}

} // verus!
