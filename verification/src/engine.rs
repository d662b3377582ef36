//! The engine: one owned value holding the task queue, the mode state
//! machine, the session clock and the selection, mutated only through
//! the intent-handling entry points. Every entry point takes "now" as
//! an explicit argument, so the whole state transition is a
//! deterministic function `step` of the old state, the intent and the
//! clock reading.
use vstd::prelude::*;

use crate::mode::{Intent, IntentView, Mode};
use crate::EngineError;
use crate::queue::{clamp_estimate, swap_adjacent_spec, Database, Direction};
use crate::task::{Task, TaskView, MIN_ESTIMATE_SECONDS};

verus! {

/// Number of frames in the cosmetic working animation.
pub const ANIMATION_FRAMES: usize = 4;

/// Mathematical model of the whole engine state.
#[verifier::ext_equal]
pub struct AppView {
    pub tasks: Seq<TaskView>,
    pub mode: Mode,
    pub start_working_time: int,
    pub selected_task_index: int,
    pub animation_counter: int,
}

/// The engine state. The session clock is the pair of `mode` (active
/// while `Working`) and `start_working_time` (meaningful only then).
#[derive(Debug)]
pub struct App {
    pub data: Database,
    pub mode: Mode,
    pub start_working_time: i64,
    pub selected_task_index: usize,
    pub animation_counter: usize,
}

impl View for App {
    type V = AppView;

    open spec fn view(&self) -> AppView {
        AppView {
            tasks: self.data@,
            mode: self.mode,
            start_working_time: self.start_working_time as int,
            selected_task_index: self.selected_task_index as int,
            animation_counter: self.animation_counter as int,
        }
    }
}

/// A fresh task as the new-task intent appends it.
pub open spec fn blank_task_view() -> TaskView {
    TaskView {
        text: Seq::<char>::empty(),
        seconds_estimated: MIN_ESTIMATE_SECONDS as int,
        seconds_spent: 0,
        done: false,
    }
}

/// The task sequence after folding the elapsed span of a session that
/// started at `start` into the spend of the task at the head of the
/// schedule.
pub open spec fn fold_session(tasks: Seq<TaskView>, start: int, now: int) -> Seq<TaskView>
    recommends
        tasks.len() >= 1,
{
    tasks.update(0, TaskView { seconds_spent: tasks[0].seconds_spent + (now - start), ..tasks[0] })
}

/// The engine state after handling one intent at clock reading `now`,
/// together with whether the intent asks the process to end.
///
/// Intents that do not match the active mode's accepted set leave the
/// state unchanged: they are defined no-ops, not errors.
pub open spec fn step(pre: AppView, intent: IntentView, now: int) -> (AppView, bool) {
    let len = pre.tasks.len() as int;
    let sel = pre.selected_task_index;
    match intent {
        IntentView::ToggleWorking => match pre.mode {
            Mode::Normal => (AppView { mode: Mode::Working, start_working_time: now, ..pre }, false),
            Mode::Working => (
                AppView {
                    mode: Mode::Normal,
                    tasks: fold_session(pre.tasks, pre.start_working_time, now),
                    ..pre
                },
                false,
            ),
            Mode::Editing => (pre, false),
        },
        IntentView::NavigateDown => if pre.mode is Normal && sel + 1 < len {
            (AppView { selected_task_index: sel + 1, ..pre }, false)
        } else {
            (pre, false)
        },
        IntentView::NavigateUp => if pre.mode is Normal && sel != 0 {
            (AppView { selected_task_index: sel - 1, ..pre }, false)
        } else {
            (pre, false)
        },
        IntentView::ReorderDown => if pre.mode is Normal && sel + 1 < len {
            (
                AppView {
                    tasks: swap_adjacent_spec(pre.tasks, sel, Direction::Down),
                    selected_task_index: sel + 1,
                    ..pre
                },
                false,
            )
        } else {
            (pre, false)
        },
        IntentView::ReorderUp => if pre.mode is Normal && sel != 0 && sel < len {
            (
                AppView {
                    tasks: swap_adjacent_spec(pre.tasks, sel, Direction::Up),
                    selected_task_index: sel - 1,
                    ..pre
                },
                false,
            )
        } else {
            (pre, false)
        },
        IntentView::IncrementEstimate => if pre.mode is Normal && 0 <= sel < len {
            (
                AppView {
                    tasks: pre.tasks.update(sel, TaskView {
                        seconds_estimated: clamp_estimate(pre.tasks[sel].seconds_estimated, MIN_ESTIMATE_SECONDS as int),
                        ..pre.tasks[sel]
                    }),
                    ..pre
                },
                false,
            )
        } else {
            (pre, false)
        },
        IntentView::DecrementEstimate => if pre.mode is Normal && 0 <= sel < len {
            (
                AppView {
                    tasks: pre.tasks.update(sel, TaskView {
                        seconds_estimated: clamp_estimate(pre.tasks[sel].seconds_estimated, -(MIN_ESTIMATE_SECONDS as int)),
                        ..pre.tasks[sel]
                    }),
                    ..pre
                },
                false,
            )
        } else {
            (pre, false)
        },
        IntentView::NewTask => if pre.mode is Normal {
            (
                AppView {
                    tasks: pre.tasks.push(blank_task_view()),
                    selected_task_index: len,
                    mode: Mode::Editing,
                    ..pre
                },
                false,
            )
        } else {
            (pre, false)
        },
        IntentView::EditTask => if pre.mode is Normal {
            (AppView { mode: Mode::Editing, ..pre }, false)
        } else {
            (pre, false)
        },
        IntentView::SubmitText(text) => if pre.mode is Editing && 0 <= sel < len {
            (
                AppView {
                    tasks: pre.tasks.update(sel, TaskView { text: text, ..pre.tasks[sel] }),
                    mode: Mode::Normal,
                    ..pre
                },
                false,
            )
        } else {
            (pre, false)
        },
        IntentView::Cancel => if !(pre.mode is Normal) {
            (AppView { mode: Mode::Normal, ..pre }, false)
        } else {
            (pre, false)
        },
        IntentView::DeleteTask => if pre.mode is Normal && 0 <= sel < len && len >= 2 {
            (
                AppView {
                    tasks: pre.tasks.remove(sel),
                    selected_task_index: if sel >= len - 1 {
                        len - 2
                    } else {
                        sel
                    },
                    ..pre
                },
                false,
            )
        } else {
            (pre, false)
        },
        IntentView::Terminate => match pre.mode {
            Mode::Working => (
                AppView {
                    mode: Mode::Normal,
                    tasks: fold_session(pre.tasks, pre.start_working_time, now),
                    ..pre
                },
                true,
            ),
            _ => (pre, true),
        },
    }
}

impl App {
    /// The state invariant: a non-empty, well-formed queue, the
    /// selection on an existing task, the animation counter inside its
    /// cycle. An empty queue is a degenerate state the engine does not
    /// enter.
    pub open spec fn wf(&self) -> bool {
        &&& self.data.wf()
        &&& self@.tasks.len() >= 1
        &&& 0 <= self@.selected_task_index < self@.tasks.len()
        &&& 0 <= self@.animation_counter < ANIMATION_FRAMES as int
    }

    /// Machine-limit side conditions under which `handle_intent` is
    /// defined for a given intent: the folded spend and the grown
    /// estimate must fit the storage type, a deletion must leave a
    /// non-empty queue, and an appended task must leave a countable
    /// length.
    pub open spec fn intent_ok(&self, intent: IntentView, now: int) -> bool {
        &&& (self@.mode is Working && (intent is ToggleWorking || intent is Terminate)) ==> {
            &&& now >= self@.start_working_time
            &&& self@.tasks[0].seconds_spent + (now - self@.start_working_time) <= i64::MAX
        }
        &&& (self@.mode is Normal && intent is IncrementEstimate) ==>
            self@.tasks[self@.selected_task_index].seconds_estimated + MIN_ESTIMATE_SECONDS as int <= i64::MAX
        &&& (self@.mode is Normal && intent is DeleteTask) ==> self@.tasks.len() >= 2
        &&& (self@.mode is Normal && intent is NewTask) ==> self@.tasks.len() < usize::MAX
    }

    /// A fresh engine over a loaded schedule, in `Normal` mode with the
    /// selection on the head of the queue.
    pub fn new(data: Database, now: i64) -> (app: App)
        requires
            data.wf(),
            data@.len() >= 1,
        ensures
            app@ == (AppView {
                tasks: data@,
                mode: Mode::Normal,
                start_working_time: now as int,
                selected_task_index: 0,
                animation_counter: 0,
            }),
            app.wf(),
    {
        App {
            data,
            mode: Mode::Normal,
            start_working_time: now,
            selected_task_index: 0,
            animation_counter: 0,
        }
    }

    /// Handles one intent at clock reading `now`. Returns whether the
    /// process should end (after a final save). The new state is
    /// exactly `step` of the old state.
    pub fn handle_intent(&mut self, intent: Intent, now: i64) -> (exit: bool)
        requires
            old(self).wf(),
            old(self).intent_ok(intent@, now as int),
        ensures
            final(self)@ == step(old(self)@, intent@, now as int).0,
            exit == step(old(self)@, intent@, now as int).1,
            final(self).wf(),
    {
        let len = self.data.len();
        let sel = self.selected_task_index;
        match intent {
            Intent::ToggleWorking => {
                match self.mode {
                    Mode::Normal => {
                        self.mode = Mode::Working;
                        self.start_working_time = now;
                    },
                    Mode::Working => {
                        self.mode = Mode::Normal;
                        let elapsed = now - self.start_working_time;
                        let cur = self.data.tasks[0].seconds_spent;
                        self.data.tasks[0].seconds_spent = cur + elapsed;
                        assert(self@.tasks =~= fold_session(old(self)@.tasks, old(self)@.start_working_time, now as int));
                    },
                    Mode::Editing => {},
                }
                assert(self@ =~= step(old(self)@, intent@, now as int).0);
                false
            },
            Intent::NavigateDown => {
                if matches!(self.mode, Mode::Normal) && sel + 1 < len {
                    self.selected_task_index = sel + 1;
                }
                false
            },
            Intent::NavigateUp => {
                if matches!(self.mode, Mode::Normal) && sel != 0 {
                    self.selected_task_index = sel - 1;
                }
                false
            },
            Intent::ReorderDown => {
                if matches!(self.mode, Mode::Normal) && sel + 1 < len {
                    self.data.swap_adjacent(sel, Direction::Down);
                    self.selected_task_index = sel + 1;
                }
                false
            },
            Intent::ReorderUp => {
                if matches!(self.mode, Mode::Normal) && sel != 0 {
                    self.data.swap_adjacent(sel, Direction::Up);
                    self.selected_task_index = sel - 1;
                }
                false
            },
            Intent::IncrementEstimate => {
                if matches!(self.mode, Mode::Normal) {
                    let r = self.data.adjust_estimate(sel, MIN_ESTIMATE_SECONDS);
                    assert(r is Ok);
                }
                assert(self@ =~= step(old(self)@, intent@, now as int).0);
                false
            },
            Intent::DecrementEstimate => {
                if matches!(self.mode, Mode::Normal) {
                    let r = self.data.adjust_estimate(sel, -MIN_ESTIMATE_SECONDS);
                    assert(r is Ok);
                }
                assert(self@ =~= step(old(self)@, intent@, now as int).0);
                false
            },
            Intent::NewTask => {
                if matches!(self.mode, Mode::Normal) {
                    self.selected_task_index = len;
                    self.data.append(Task::new_blank());
                    self.mode = Mode::Editing;
                }
                assert(self@ =~= step(old(self)@, intent@, now as int).0);
                false
            },
            Intent::EditTask => {
                if matches!(self.mode, Mode::Normal) {
                    self.mode = Mode::Editing;
                }
                false
            },
            Intent::SubmitText(text) => {
                if matches!(self.mode, Mode::Editing) {
                    let r = self.data.set_text(sel, text);
                    assert(r is Ok);
                    self.mode = Mode::Normal;
                }
                assert(self@ =~= step(old(self)@, intent@, now as int).0);
                false
            },
            Intent::Cancel => {
                if !matches!(self.mode, Mode::Normal) {
                    self.mode = Mode::Normal;
                }
                false
            },
            Intent::DeleteTask => {
                if matches!(self.mode, Mode::Normal) {
                    let r = self.data.remove(sel);
                    assert(r is Ok);
                    if sel >= len - 1 {
                        self.selected_task_index = len - 2;
                    }
                    assert(self@ =~= step(old(self)@, intent@, now as int).0);
                }
                false
            },
            Intent::Terminate => {
                match self.mode {
                    Mode::Working => {
                        self.mode = Mode::Normal;
                        let elapsed = now - self.start_working_time;
                        let cur = self.data.tasks[0].seconds_spent;
                        self.data.tasks[0].seconds_spent = cur + elapsed;
                        assert(self@.tasks =~= fold_session(old(self)@.tasks, old(self)@.start_working_time, now as int));
                    },
                    _ => {},
                }
                assert(self@ =~= step(old(self)@, intent@, now as int).0);
                true
            },
        }
    }

    /// Per-frame update hook. The engine advances only on intents and
    /// idle ticks, so this changes nothing and never fails.
    pub fn update(&mut self) -> (r: Result<(), EngineError>)
        ensures
            final(self)@ == old(self)@,
            r is Ok,
    {
        Ok(())
    }

    /// Advances the cosmetic animation counter on an idle tick. The
    /// counter cycles and never influences queue, session or selection
    /// state.
    pub fn tick(&mut self)
        requires
            old(self).wf(),
        ensures
            final(self)@ == (AppView {
                animation_counter: if old(self)@.animation_counter + 1 >= ANIMATION_FRAMES as int {
                    0
                } else {
                    old(self)@.animation_counter + 1
                },
                ..old(self)@
            }),
            final(self).wf(),
    {
        self.animation_counter = self.animation_counter + 1;
        if self.animation_counter >= ANIMATION_FRAMES {
            self.animation_counter = 0;
        }
        assert(self@ =~= (AppView {
            animation_counter: if old(self)@.animation_counter + 1 >= ANIMATION_FRAMES as int {
                0int
            } else {
                old(self)@.animation_counter + 1
            },
            ..old(self)@
        }));
    }
}

/// Opening a working session and closing it again increases the spend
/// of the task at the head of the schedule by exactly the elapsed span,
/// and changes no other task: `Normal -> Working -> Normal` over the
/// span from `t0` to `t1` adds `t1 - t0` to the head task's spend.
pub proof fn lemma_working_session_accumulates(pre: AppView, t0: int, t1: int)
    requires
        pre.mode is Normal,
        pre.tasks.len() >= 1,
    ensures
        ({
            let mid = step(pre, IntentView::ToggleWorking, t0).0;
            let post = step(mid, IntentView::ToggleWorking, t1).0;
            &&& mid.mode is Working
            &&& post.mode is Normal
            &&& post.tasks.len() == pre.tasks.len()
            &&& post.tasks[0].seconds_spent == pre.tasks[0].seconds_spent + (t1 - t0)
            &&& post.tasks[0].text == pre.tasks[0].text
            &&& post.tasks[0].seconds_estimated == pre.tasks[0].seconds_estimated
            &&& post.tasks[0].done == pre.tasks[0].done
            &&& forall|i: int| 1 <= i < pre.tasks.len() ==> post.tasks[i] == pre.tasks[i]
            &&& post.selected_task_index == pre.selected_task_index
        }),
{
}

} // verus!
