//! The task queue: an ordered, mutable collection of tasks, with the
//! reorder, insert, remove and edit operations and their invariants.
use vstd::prelude::*;
use vstd::string::StringExecFns;

use crate::EngineError;
use crate::task::{Task, TaskView, MIN_ESTIMATE_SECONDS, DEFAULT_ESTIMATE_SECONDS};

verus! {

/// Direction of an adjacent reorder.
#[derive(Clone, Copy, Debug, PartialEq, Eq, Structural)]
pub enum Direction {
    Up,
    Down,
}

/// The ordered work schedule. Order is significant; duplicate texts are
/// allowed. Owned exclusively by the engine.
#[derive(Debug, Clone, PartialEq)]
pub struct Database {
    pub tasks: Vec<Task>,
}

impl View for Database {
    type V = Seq<TaskView>;

    open spec fn view(&self) -> Seq<TaskView> {
        self.tasks@.map_values(|t: Task| t@)
    }
}

/// The clamped estimate after adding `delta` seconds: never below the
/// 15-minute floor.
pub open spec fn clamp_estimate(est: int, delta: int) -> int {
    if est + delta < MIN_ESTIMATE_SECONDS as int {
        MIN_ESTIMATE_SECONDS as int
    } else {
        est + delta
    }
}

/// Whether a swap of `index` with its neighbour in direction `dir` stays
/// in bounds of a queue of length `len`.
pub open spec fn swap_in_bounds(len: int, index: int, dir: Direction) -> bool {
    match dir {
        Direction::Up => 0 < index < len,
        Direction::Down => 0 <= index && index + 1 < len,
    }
}

/// The queue after an adjacent swap: exchanged when the move stays in
/// bounds, unchanged otherwise.
pub open spec fn swap_adjacent_spec(q: Seq<TaskView>, index: int, dir: Direction) -> Seq<TaskView> {
    if swap_in_bounds(q.len() as int, index, dir) {
        match dir {
            Direction::Up => q.update(index, q[index - 1]).update(index - 1, q[index]),
            Direction::Down => q.update(index, q[index + 1]).update(index + 1, q[index]),
        }
    } else {
        q
    }
}

impl Database {
    /// Every task in the queue is well formed.
    pub open spec fn wf(&self) -> bool {
        forall|i: int| 0 <= i < self@.len() ==> (#[trigger] self@[i]).wf()
    }

    pub fn new(tasks: Vec<Task>) -> (db: Database)
        ensures
            db@ == tasks@.map_values(|t: Task| t@),
    {
        Database { tasks }
    }

    pub fn len(&self) -> (n: usize)
        ensures
            n == self@.len(),
    {
        self.tasks.len()
    }

    pub fn get(&self, index: usize) -> (t: &Task)
        requires
            index < self@.len(),
        ensures
            t@ == self@[index as int],
    {
        &self.tasks[index]
    }

    /// Inserts at the tail; the new length is the old length plus one.
    pub fn append(&mut self, t: Task)
        requires
            old(self)@.len() < usize::MAX,
        ensures
            final(self)@ == old(self)@.push(t@),
    {
        self.tasks.push(t);
    }

    /// Removes the element at `index`; `OutOfRange` if and only if
    /// `index` is not below the length.
    pub fn remove(&mut self, index: usize) -> (r: Result<(), EngineError>)
        ensures
            index < old(self)@.len() ==> r is Ok && final(self)@ == old(self)@.remove(index as int),
            index >= old(self)@.len() ==> r == Result::<(), EngineError>::Err(EngineError::OutOfRange)
                && final(self)@ == old(self)@,
    {
        if index < self.tasks.len() {
            self.tasks.remove(index);
            assert(final(self)@ =~= old(self)@.remove(index as int));
            Ok(())
        } else {
            Err(EngineError::OutOfRange)
        }
    }

    /// Exchanges the task at `index` with its neighbour in direction
    /// `dir`; a silent no-op (not an error) when the move would go out
    /// of bounds.
    pub fn swap_adjacent(&mut self, index: usize, dir: Direction)
        ensures
            final(self)@ == swap_adjacent_spec(old(self)@, index as int, dir),
    {
        let len = self.tasks.len();
        match dir {
            Direction::Up => {
                if index > 0 && index < len {
                    let t = self.tasks.remove(index);
                    self.tasks.insert(index - 1, t);
                    assert(final(self)@ =~= swap_adjacent_spec(old(self)@, index as int, dir));
                }
            },
            Direction::Down => {
                if index < len && index + 1 < len {
                    let t = self.tasks.remove(index);
                    self.tasks.insert(index + 1, t);
                    assert(final(self)@ =~= swap_adjacent_spec(old(self)@, index as int, dir));
                }
            },
        }
    }

    /// Sets the estimate at `index` to `max(900, estimate + delta)`;
    /// `OutOfRange` if and only if `index` is not below the length.
    pub fn adjust_estimate(&mut self, index: usize, delta: i64) -> (r: Result<(), EngineError>)
        requires
            old(self).wf(),
            index < old(self)@.len() ==> old(self)@[index as int].seconds_estimated + delta <= i64::MAX,
        ensures
            index < old(self)@.len() ==> r is Ok
                && final(self)@ == old(self)@.update(index as int, TaskView {
                    seconds_estimated: clamp_estimate(old(self)@[index as int].seconds_estimated, delta as int),
                    ..old(self)@[index as int]
                }),
            index >= old(self)@.len() ==> r == Result::<(), EngineError>::Err(EngineError::OutOfRange)
                && final(self)@ == old(self)@,
            final(self).wf(),
    {
        if index < self.tasks.len() {
            let cur = self.tasks[index].seconds_estimated;
            assert(cur == self@[index as int].seconds_estimated);
            let sum = cur + delta;
            let clamped = if sum < MIN_ESTIMATE_SECONDS { MIN_ESTIMATE_SECONDS } else { sum };
            self.tasks[index].seconds_estimated = clamped;
            assert(final(self)@ =~= old(self)@.update(index as int, TaskView {
                seconds_estimated: clamp_estimate(old(self)@[index as int].seconds_estimated, delta as int),
                ..old(self)@[index as int]
            }));
            Ok(())
        } else {
            Err(EngineError::OutOfRange)
        }
    }

    /// Replaces the text at `index`; no validation is performed, the
    /// empty string is permitted. `OutOfRange` if and only if `index`
    /// is not below the length.
    pub fn set_text(&mut self, index: usize, text: String) -> (r: Result<(), EngineError>)
        ensures
            index < old(self)@.len() ==> r is Ok
                && final(self)@ == old(self)@.update(index as int, TaskView {
                    text: text@,
                    ..old(self)@[index as int]
                }),
            index >= old(self)@.len() ==> r == Result::<(), EngineError>::Err(EngineError::OutOfRange)
                && final(self)@ == old(self)@,
    {
        if index < self.tasks.len() {
            self.tasks[index].text = text;
            assert(final(self)@ =~= old(self)@.update(index as int, TaskView {
                text: text@,
                ..old(self)@[index as int]
            }));
            Ok(())
        } else {
            Err(EngineError::OutOfRange)
        }
    }
}

/// The seed schedule used on first run: two half-hour tasks with nothing
/// spent on them.
pub fn default_data() -> (db: Database)
    ensures
        db@.len() == 2,
        db@[0].text == "Task 1"@,
        db@[1].text == "Task 2"@,
        db@[0].seconds_estimated == DEFAULT_ESTIMATE_SECONDS as int,
        db@[1].seconds_estimated == DEFAULT_ESTIMATE_SECONDS as int,
        db@[0].seconds_spent == 0,
        db@[1].seconds_spent == 0,
        !db@[0].done,
        !db@[1].done,
        db.wf(),
{
    let mut tasks: Vec<Task> = Vec::new();
    tasks.push(Task {
        text: String::from_str("Task 1"),
        seconds_estimated: DEFAULT_ESTIMATE_SECONDS,
        seconds_spent: 0,
        done: false,
    });
    tasks.push(Task {
        text: String::from_str("Task 2"),
        seconds_estimated: DEFAULT_ESTIMATE_SECONDS,
        seconds_spent: 0,
        done: false,
    });
    Database { tasks }
}

/// The same seed schedule, offered under the name the earlier in-process
/// state used for it.
pub fn default_app_data() -> (db: Database)
    ensures
        db@.len() == 2,
        db@[0].text == "Task 1"@,
        db@[1].text == "Task 2"@,
        db@[0].seconds_estimated == DEFAULT_ESTIMATE_SECONDS as int,
        db@[1].seconds_estimated == DEFAULT_ESTIMATE_SECONDS as int,
        db@[0].seconds_spent == 0,
        db@[1].seconds_spent == 0,
        !db@[0].done,
        !db@[1].done,
        db.wf(),
{
    default_data()
}

/// Boundary reorders are no-ops: swapping the first task up, or the last
/// task down, leaves the queue unchanged.
pub proof fn lemma_swap_boundary_noop(q: Seq<TaskView>, dir: Direction)
    requires
        q.len() > 0,
    ensures
        swap_adjacent_spec(q, 0, Direction::Up) == q,
        swap_adjacent_spec(q, q.len() - 1, Direction::Down) == q,
{
}

/// The estimate after folding a whole sequence of adjustments, applied
/// head first.
pub open spec fn apply_estimate_deltas(est: int, deltas: Seq<int>) -> int
    decreases deltas.len(),
{
    if deltas.len() == 0 {
        est
    } else {
        apply_estimate_deltas(clamp_estimate(est, deltas[0]), deltas.drop_first())
    }
}

/// However many adjustments are applied, and however negative they are,
/// at least one adjustment leaves the estimate at or above the
/// 15-minute floor: repeated decrements can never drive it below 900.
pub proof fn lemma_estimate_never_below_floor(est: int, deltas: Seq<int>)
    requires
        deltas.len() >= 1,
    ensures
        apply_estimate_deltas(est, deltas) >= MIN_ESTIMATE_SECONDS as int,
    decreases deltas.len(),
{
    if deltas.len() == 1 {
        assert(apply_estimate_deltas(clamp_estimate(est, deltas[0]), deltas.drop_first())
            == clamp_estimate(est, deltas[0]));
    } else {
        lemma_estimate_never_below_floor(clamp_estimate(est, deltas[0]), deltas.drop_first());
    }
}

} // verus!
