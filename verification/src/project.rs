//! The schedule projector: a pure, stateless projection of the queue,
//! the session clock and the clock reading "now" into per-task render
//! rows, each with a cumulative ETA and an over/under indicator. It is
//! re-run on every render tick and never mutates the queue.
use vstd::prelude::*;

use crate::engine::App;
use crate::mode::{mode_label, Mode};
use crate::queue::Database;
use crate::task::{Task, TaskView};
use crate::timefmt::{clock_hm_no_pad, clock_hm_pad, clock_hms_no_pad, format_hm_no_pad, format_hm_pad, format_hms_no_pad};

verus! {

/// Over/under indicator of one task, as rendered.
#[verifier::ext_equal]
pub enum TimerView {
    Hidden,
    Ahead { seconds: int, label: Seq<char> },
    Over { seconds: int, label: Seq<char> },
}

/// Mathematical model of one render row.
#[verifier::ext_equal]
pub struct RowView {
    pub text: Seq<char>,
    pub duration_label: Seq<char>,
    pub eta_seconds: int,
    pub eta_label: Seq<char>,
    pub timer: TimerView,
}

/// Over/under indicator of one task. `Ahead` counts down the remaining
/// span, `Over` counts up the overrun; `Hidden` is shown for a task
/// with no spend and no open session.
#[derive(Debug, Clone, PartialEq)]
pub enum TimerStatus {
    Hidden,
    Ahead { seconds: i64, label: String },
    Over { seconds: i64, label: String },
}

impl View for TimerStatus {
    type V = TimerView;

    open spec fn view(&self) -> TimerView {
        match self {
            TimerStatus::Hidden => TimerView::Hidden,
            TimerStatus::Ahead { seconds, label } => TimerView::Ahead {
                seconds: *seconds as int,
                label: label@,
            },
            TimerStatus::Over { seconds, label } => TimerView::Over {
                seconds: *seconds as int,
                label: label@,
            },
        }
    }
}

/// One row of the read-only render snapshot: the task's text, its
/// duration and cumulative ETA as clock-of-day labels, and its
/// over/under indicator.
#[derive(Debug, Clone, PartialEq)]
pub struct RenderRow {
    pub text: String,
    pub duration_label: String,
    pub eta_seconds: i64,
    pub eta_label: String,
    pub timer: TimerStatus,
}

impl View for RenderRow {
    type V = RowView;

    open spec fn view(&self) -> RowView {
        RowView {
            text: self.text@,
            duration_label: self.duration_label@,
            eta_seconds: self.eta_seconds as int,
            eta_label: self.eta_label@,
            timer: self.timer@,
        }
    }
}

/// The summed estimates of the first `k` tasks.
pub open spec fn sum_est(tasks: Seq<TaskView>, k: int) -> int
    decreases k,
{
    if k <= 0 {
        0
    } else {
        sum_est(tasks, k - 1) + tasks[k - 1].seconds_estimated
    }
}

/// Partial sums of non-negative estimates grow with `k`.
pub proof fn lemma_sum_est_monotonic(tasks: Seq<TaskView>, k1: int, k2: int)
    requires
        forall|i: int| 0 <= i < tasks.len() ==> (#[trigger] tasks[i]).seconds_estimated >= 0,
        0 <= k1 <= k2 <= tasks.len(),
    ensures
        sum_est(tasks, k1) <= sum_est(tasks, k2),
    decreases k2,
{
    if k2 > k1 {
        lemma_sum_est_monotonic(tasks, k1, k2 - 1);
    }
}

/// The spend attributed to task `i`: its accumulated spend, plus the
/// live elapsed span of the open session when one is active and `i` is
/// the head of the schedule.
pub open spec fn live_spent(tasks: Seq<TaskView>, working: bool, start: int, now: int, i: int) -> int {
    tasks[i].seconds_spent + if working && i == 0 {
        now - start
    } else {
        0
    }
}

/// The over/under indicator of task `i`: shown for the task an open
/// session is on and for every task with nonzero spend, so that
/// previously interrupted tasks keep a visible indicator.
pub open spec fn timer_spec(tasks: Seq<TaskView>, working: bool, start: int, now: int, i: int) -> TimerView {
    let dur = tasks[i].seconds_estimated;
    let sp = live_spent(tasks, working, start, now, i);
    if (working && i == 0) || sp > 0 {
        if sp < dur {
            TimerView::Ahead { seconds: dur - sp, label: clock_hms_no_pad(dur - sp) }
        } else {
            TimerView::Over { seconds: sp - dur, label: clock_hms_no_pad(sp - dur) }
        }
    } else {
        TimerView::Hidden
    }
}

/// Row `i` of the projection. The cumulative ETA of task `i` is `now`
/// plus the summed estimates of tasks `0..=i`, independent of any
/// task's spend.
pub open spec fn row_spec(tasks: Seq<TaskView>, working: bool, start: int, now: int, i: int) -> RowView {
    RowView {
        text: tasks[i].text,
        duration_label: clock_hm_no_pad(tasks[i].seconds_estimated),
        eta_seconds: now + sum_est(tasks, i + 1),
        eta_label: clock_hm_pad(now + sum_est(tasks, i + 1)),
        timer: timer_spec(tasks, working, start, now, i),
    }
}

/// The whole projection, one row per task, in queue order.
pub open spec fn project_spec(tasks: Seq<TaskView>, working: bool, start: int, now: int) -> Seq<RowView> {
    Seq::new(tasks.len(), |i: int| row_spec(tasks, working, start, now, i))
}

/// The side conditions under which the projection fits the storage
/// types: every cumulative ETA and the live spend stay within range.
pub open spec fn project_in_range(tasks: Seq<TaskView>, working: bool, start: int, now: int) -> bool {
    &&& now >= 0
    &&& now + sum_est(tasks, tasks.len() as int) <= i64::MAX
    &&& (working && tasks.len() > 0) ==> {
        &&& start <= now
        &&& tasks[0].seconds_spent + (now - start) <= i64::MAX
    }
}

/// Projects the queue into render rows. The result is exactly
/// `project_spec` of the inputs: a deterministic function of the queue,
/// the session clock and `now`.
fn make_row(
    task: &Task,
    working: bool,
    start_working_time: i64,
    now: i64,
    head: bool,
    eta: i64,
    Ghost(tasks): Ghost<Seq<TaskView>>,
    Ghost(i): Ghost<int>,
) -> (row: RenderRow)
    requires
        0 <= i < tasks.len(),
        task@ == tasks[i],
        task@.wf(),
        head == (i == 0),
        now >= 0,
        (working && head) ==> {
            &&& start_working_time <= now
            &&& task@.seconds_spent + (now - start_working_time) <= i64::MAX
        },
        eta as int == now + sum_est(tasks, i + 1),
        eta >= 0,
    ensures
        row@ == row_spec(tasks, working, start_working_time as int, now as int, i),
{
    let dur = task.seconds_estimated;
    let sp = if working && head {
        task.seconds_spent + (now - start_working_time)
    } else {
        task.seconds_spent
    };
    assert(sp as int == live_spent(tasks, working, start_working_time as int, now as int, i));
    let timer = if (working && head) || sp > 0 {
        if sp < dur {
            TimerStatus::Ahead { seconds: dur - sp, label: format_hms_no_pad(dur - sp) }
        } else {
            TimerStatus::Over { seconds: sp - dur, label: format_hms_no_pad(sp - dur) }
        }
    } else {
        TimerStatus::Hidden
    };
    assert(timer@ == timer_spec(tasks, working, start_working_time as int, now as int, i));
    let row = RenderRow {
        text: task.text.clone(),
        duration_label: format_hm_no_pad(dur),
        eta_seconds: eta,
        eta_label: format_hm_pad(eta),
        timer,
    };
    assert(row@ =~= row_spec(tasks, working, start_working_time as int, now as int, i));
    row
}

/// Projects the queue into render rows. The result is exactly
/// `project_spec` of the inputs: a deterministic function of the queue,
/// the session clock and `now`.
pub fn project(data: &Database, working: bool, start_working_time: i64, now: i64) -> (rows: Vec<RenderRow>)
    requires
        data.wf(),
        project_in_range(data@, working, start_working_time as int, now as int),
    ensures
        rows@.len() == data@.len(),
        forall|k: int| 0 <= k < data@.len() ==> (#[trigger] rows@[k])@ == project_spec(
            data@,
            working,
            start_working_time as int,
            now as int,
        )[k],
{
    let ghost tasks = data@;
    let len = data.len();
    let mut rows: Vec<RenderRow> = Vec::new();
    let mut eta: i64 = now;
    let mut i: usize = 0;
    while i < len
        invariant
            data.wf(),
            project_in_range(tasks, working, start_working_time as int, now as int),
            tasks == data@,
            len == tasks.len(),
            i <= len,
            eta as int == now + sum_est(tasks, i as int),
            eta >= 0,
            rows@.len() == i,
            forall|j: int| 0 <= j < i ==> (#[trigger] rows@[j])@
                == row_spec(tasks, working, start_working_time as int, now as int, j),
        decreases len - i,
    {
        let task = data.get(i);
        proof {
            lemma_sum_est_monotonic(tasks, 0, i as int);
            lemma_sum_est_monotonic(tasks, i as int + 1, tasks.len() as int);
            assert(sum_est(tasks, i as int + 1) == sum_est(tasks, i as int) + tasks[i as int].seconds_estimated);
        }
        eta = eta + task.seconds_estimated;
        let row = make_row(task, working, start_working_time, now, i == 0, eta, Ghost(tasks), Ghost(i as int));
        rows.push(row);
        i = i + 1;
    }
    rows
}

/// The projector is idempotent for fixed inputs: any two projections of
/// the same queue, session clock and clock reading are identical.
pub proof fn lemma_projector_idempotent(
    tasks: Seq<TaskView>,
    working: bool,
    start: int,
    now: int,
    r1: Seq<RowView>,
    r2: Seq<RowView>,
)
    requires
        r1 == project_spec(tasks, working, start, now),
        r2 == project_spec(tasks, working, start, now),
    ensures
        r1 == r2,
{
}

/// The cumulative ETA of the task at position `k` is `now` plus the sum
/// of the estimates of tasks `0..=k`.
pub proof fn lemma_eta_formula(tasks: Seq<TaskView>, working: bool, start: int, now: int, k: int)
    requires
        0 <= k < tasks.len(),
    ensures
        project_spec(tasks, working, start, now)[k].eta_seconds == now + sum_est(tasks, k + 1),
{
}

proof fn lemma_sum_est_same_estimates(t1: Seq<TaskView>, t2: Seq<TaskView>, k: int)
    requires
        t1.len() == t2.len(),
        forall|i: int| 0 <= i < t1.len() ==> (#[trigger] t1[i]).seconds_estimated == t2[i].seconds_estimated,
        0 <= k <= t1.len(),
    ensures
        sum_est(t1, k) == sum_est(t2, k),
    decreases k,
{
    if k > 0 {
        lemma_sum_est_same_estimates(t1, t2, k - 1);
    }
}

/// Cumulative ETAs are independent of any task's spend: two queues with
/// the same estimates project to the same ETA at every position,
/// whatever was spent on their tasks and whatever session is open.
pub proof fn lemma_eta_independent_of_spend(
    t1: Seq<TaskView>,
    t2: Seq<TaskView>,
    w1: bool,
    w2: bool,
    s1: int,
    s2: int,
    now: int,
    k: int,
)
    requires
        t1.len() == t2.len(),
        forall|i: int| 0 <= i < t1.len() ==> (#[trigger] t1[i]).seconds_estimated == t2[i].seconds_estimated,
        0 <= k < t1.len(),
    ensures
        project_spec(t1, w1, s1, now)[k].eta_seconds == project_spec(t2, w2, s2, now)[k].eta_seconds,
{
    lemma_sum_est_same_estimates(t1, t2, k + 1);
}

/// The read-only snapshot handed to the render layer on every loop
/// iteration.
#[derive(Debug)]
pub struct RenderModel {
    pub rows: Vec<RenderRow>,
    pub mode_text: &'static str,
    pub selected_task_index: usize,
    pub animation_counter: usize,
    pub now_label: String,
}

impl App {
    /// The render snapshot of the engine at clock reading `now`: the
    /// projected rows, the mode label, the selection, the animation
    /// frame index and the ambient clock label.
    pub fn render_model(&self, now: i64) -> (m: RenderModel)
        requires
            self.wf(),
            project_in_range(self@.tasks, self@.mode is Working, self@.start_working_time, now as int),
        ensures
            m.rows@.len() == self@.tasks.len(),
            forall|k: int| 0 <= k < self@.tasks.len() ==> (#[trigger] m.rows@[k])@ == project_spec(
                self@.tasks,
                self@.mode is Working,
                self@.start_working_time,
                now as int,
            )[k],
            self@.mode is Normal ==> m.mode_text@ == "NORMAL"@,
            self@.mode is Working ==> m.mode_text@ == "WORKING"@,
            self@.mode is Editing ==> m.mode_text@ == "EDITING"@,
            m.selected_task_index as int == self@.selected_task_index,
            m.animation_counter as int == self@.animation_counter,
            m.now_label@ == clock_hm_no_pad(now as int),
    {
        let working = matches!(self.mode, Mode::Working);
        RenderModel {
            rows: project(&self.data, working, self.start_working_time, now),
            mode_text: mode_label(self.mode),
            selected_task_index: self.selected_task_index,
            animation_counter: self.animation_counter,
            now_label: format_hm_no_pad(now),
        }
    }
}

} // verus!
