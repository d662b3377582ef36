use tasktimer::engine::App;
use tasktimer::mode::{mode_label, Intent, Mode};
use tasktimer::project::{project, RenderRow, TimerStatus};
use tasktimer::queue::Database;
use tasktimer::task::Task;
use tasktimer::text::hidden_text;
use tasktimer::timefmt::{format_hm_no_pad, format_hm_pad, format_hms_no_pad};

fn mk(text: &str, est: i64, spent: i64) -> Task {
    Task { text: String::from(text), seconds_estimated: est, seconds_spent: spent, done: false }
}

#[test]
fn two_fresh_tasks_project_plain_etas_and_no_overrun() {
    // queue = [("A", 1800, 0), ("B", 1800, 0)], Normal mode, now = 9:00.
    let db = Database::new(vec![mk("A", 1800, 0), mk("B", 1800, 0)]);
    let now = 9 * 3600;
    let rows = project(&db, false, 0, now);
    assert_eq!(rows.len(), 2);
    assert_eq!(rows[0].eta_seconds, now + 1800);
    assert_eq!(rows[1].eta_seconds, now + 3600);
    assert_eq!(rows[0].eta_label, "09:30");
    assert_eq!(rows[1].eta_label, "10:00");
    assert_eq!(rows[0].timer, TimerStatus::Hidden);
    assert_eq!(rows[1].timer, TimerStatus::Hidden);
}

#[test]
fn projector_is_idempotent_for_fixed_inputs() {
    let db = Database::new(vec![mk("A", 1800, 120), mk("B", 2700, 0)]);
    let r1 = project(&db, true, 1000, 1500);
    let r2 = project(&db, true, 1000, 1500);
    assert_eq!(r1, r2);
}

#[test]
fn eta_is_now_plus_cumulative_estimates_regardless_of_spend() {
    let spent = Database::new(vec![mk("A", 900, 800), mk("B", 1800, 5000), mk("C", 2700, 0)]);
    let fresh = Database::new(vec![mk("A", 900, 0), mk("B", 1800, 0), mk("C", 2700, 0)]);
    let now = 1000;
    let rs = project(&spent, false, 0, now);
    let rf = project(&fresh, false, 0, now);
    for k in 0..3 {
        assert_eq!(rs[k].eta_seconds, rf[k].eta_seconds);
    }
    assert_eq!(rs[0].eta_seconds, now + 900);
    assert_eq!(rs[1].eta_seconds, now + 900 + 1800);
    assert_eq!(rs[2].eta_seconds, now + 900 + 1800 + 2700);
}

#[test]
fn stopping_after_overrun_shows_over_label() {
    // Working starts at T0 on task A (est 1800); the stop intent at
    // T0 + 2000 leaves spent = 2000, and the next projection shows A
    // over by 200 seconds.
    let t0 = 10_000;
    let mut app = App::new(Database::new(vec![mk("A", 1800, 0)]), 0);
    app.handle_intent(Intent::ToggleWorking, t0);
    app.handle_intent(Intent::ToggleWorking, t0 + 2000);
    assert_eq!(app.data.tasks[0].seconds_spent, 2000);
    let rows = project(&app.data, false, 0, t0 + 2000);
    match &rows[0].timer {
        TimerStatus::Over { seconds, label } => {
            assert_eq!(*seconds, 200);
            assert_eq!(label, "0:03:20");
        },
        other => panic!("expected an over label, got {:?}", other),
    }
}

#[test]
fn live_session_counts_into_head_task_only() {
    let db = Database::new(vec![mk("A", 1800, 100), mk("B", 1800, 60)]);
    let start = 5000;
    let now = 5300;
    let rows = project(&db, true, start, now);
    match &rows[0].timer {
        TimerStatus::Ahead { seconds, .. } => assert_eq!(*seconds, 1800 - 100 - 300),
        other => panic!("expected a countdown, got {:?}", other),
    }
    match &rows[1].timer {
        TimerStatus::Ahead { seconds, .. } => assert_eq!(*seconds, 1800 - 60),
        other => panic!("expected a countdown, got {:?}", other),
    }
}

#[test]
fn fresh_working_session_shows_full_countdown() {
    let db = Database::new(vec![mk("A", 1800, 0)]);
    let rows = project(&db, true, 700, 700);
    match &rows[0].timer {
        TimerStatus::Ahead { seconds, label } => {
            assert_eq!(*seconds, 1800);
            assert_eq!(label, "0:30:00");
        },
        other => panic!("expected a countdown, got {:?}", other),
    }
}

#[test]
fn interrupted_tasks_keep_their_indicator_outside_working_mode() {
    let db = Database::new(vec![mk("A", 1800, 0), mk("B", 1800, 600)]);
    let rows = project(&db, false, 0, 0);
    assert_eq!(rows[0].timer, TimerStatus::Hidden);
    match &rows[1].timer {
        TimerStatus::Ahead { seconds, .. } => assert_eq!(*seconds, 1200),
        other => panic!("expected a countdown, got {:?}", other),
    }
}

#[test]
fn duration_labels_render_as_clock_of_day() {
    let db = Database::new(vec![mk("A", 1800, 0), mk("B", 3 * 3600 + 15 * 60, 0)]);
    let rows = project(&db, false, 0, 0);
    assert_eq!(rows[0].duration_label, "0:30");
    assert_eq!(rows[1].duration_label, "3:15");
}

#[test]
fn eta_labels_wrap_past_midnight() {
    let db = Database::new(vec![mk("A", 2 * 3600, 0)]);
    let now = 23 * 3600;
    let rows = project(&db, false, 0, now);
    assert_eq!(rows[0].eta_label, "01:00");
}

#[test]
fn render_model_snapshots_everything() {
    let mut app = App::new(Database::new(vec![mk("A", 1800, 0), mk("B", 900, 0)]), 0);
    app.handle_intent(Intent::NavigateDown, 0);
    app.tick();
    let m = app.render_model(9 * 3600 + 5 * 60);
    assert_eq!(m.rows.len(), 2);
    assert_eq!(m.mode_text, "NORMAL");
    assert_eq!(m.selected_task_index, 1);
    assert_eq!(m.animation_counter, 1);
    assert_eq!(m.now_label, "9:05");
    let direct: Vec<RenderRow> = project(&app.data, false, app.start_working_time, 9 * 3600 + 5 * 60);
    assert_eq!(m.rows, direct);
}

#[test]
fn mode_labels_match_modes() {
    assert_eq!(mode_label(Mode::Normal), "NORMAL");
    assert_eq!(mode_label(Mode::Working), "WORKING");
    assert_eq!(mode_label(Mode::Editing), "EDITING");
}

#[test]
fn clock_labels_format_exactly() {
    assert_eq!(format_hm_pad(9 * 3600 + 30 * 60), "09:30");
    assert_eq!(format_hm_pad(0), "00:00");
    assert_eq!(format_hm_pad(26 * 3600 + 60), "02:01");
    assert_eq!(format_hm_no_pad(9 * 3600 + 30 * 60), "9:30");
    assert_eq!(format_hm_no_pad(13 * 3600), "13:00");
    assert_eq!(format_hms_no_pad(200), "0:03:20");
    assert_eq!(format_hms_no_pad(11 * 3600 + 59 * 60 + 59), "11:59:59");
}

#[test]
fn hidden_text_keeps_only_spaces() {
    assert_eq!(hidden_text("fix the bug"), "--- --- ---");
    assert_eq!(hidden_text(""), "");
    assert_eq!(hidden_text("a b"), "- -");
}
