use tasktimer::engine::App;
use tasktimer::mode::{EditKey, Intent, Mode};
use tasktimer::queue::{default_data, Database};
use tasktimer::task::Task;

fn mk(text: &str, est: i64, spent: i64) -> Task {
    Task { text: String::from(text), seconds_estimated: est, seconds_spent: spent, done: false }
}

fn app2() -> App {
    App::new(Database::new(vec![mk("A", 1800, 0), mk("B", 1800, 0)]), 0)
}

#[test]
fn new_app_starts_normal_on_head() {
    let app = App::new(default_data(), 100);
    assert_eq!(app.mode, Mode::Normal);
    assert_eq!(app.selected_task_index, 0);
    assert_eq!(app.animation_counter, 0);
    assert_eq!(app.start_working_time, 100);
}

#[test]
fn working_session_accumulates_elapsed_seconds() {
    // Normal -> Working -> Normal over 2000 s adds exactly 2000 s to
    // the head task's spend and leaves the other task untouched.
    let mut app = app2();
    let t0 = 1000;
    assert!(!app.handle_intent(Intent::ToggleWorking, t0));
    assert_eq!(app.mode, Mode::Working);
    assert_eq!(app.start_working_time, t0);
    assert!(!app.handle_intent(Intent::ToggleWorking, t0 + 2000));
    assert_eq!(app.mode, Mode::Normal);
    assert_eq!(app.data.tasks[0].seconds_spent, 2000);
    assert_eq!(app.data.tasks[1].seconds_spent, 0);
}

#[test]
fn stop_working_attributes_spend_to_head_not_selection() {
    let mut app = app2();
    app.handle_intent(Intent::NavigateDown, 0);
    assert_eq!(app.selected_task_index, 1);
    app.handle_intent(Intent::ToggleWorking, 50);
    app.handle_intent(Intent::ToggleWorking, 80);
    assert_eq!(app.data.tasks[0].seconds_spent, 30);
    assert_eq!(app.data.tasks[1].seconds_spent, 0);
}

#[test]
fn navigation_moves_selection_within_bounds() {
    let mut app = app2();
    app.handle_intent(Intent::NavigateUp, 0);
    assert_eq!(app.selected_task_index, 0);
    app.handle_intent(Intent::NavigateDown, 0);
    assert_eq!(app.selected_task_index, 1);
    app.handle_intent(Intent::NavigateDown, 0);
    assert_eq!(app.selected_task_index, 1);
    app.handle_intent(Intent::NavigateUp, 0);
    assert_eq!(app.selected_task_index, 0);
}

#[test]
fn reorder_moves_task_and_selection_together() {
    let mut app = app2();
    app.handle_intent(Intent::ReorderDown, 0);
    assert_eq!(app.data.tasks[0].text, "B");
    assert_eq!(app.data.tasks[1].text, "A");
    assert_eq!(app.selected_task_index, 1);
    app.handle_intent(Intent::ReorderUp, 0);
    assert_eq!(app.data.tasks[0].text, "A");
    assert_eq!(app.selected_task_index, 0);
}

#[test]
fn reorder_at_boundary_changes_nothing() {
    let mut app = app2();
    app.handle_intent(Intent::ReorderUp, 0);
    assert_eq!(app.data.tasks[0].text, "A");
    assert_eq!(app.selected_task_index, 0);
    app.handle_intent(Intent::NavigateDown, 0);
    app.handle_intent(Intent::ReorderDown, 0);
    assert_eq!(app.data.tasks[1].text, "B");
    assert_eq!(app.selected_task_index, 1);
}

#[test]
fn estimate_intents_adjust_selected_task() {
    let mut app = app2();
    app.handle_intent(Intent::IncrementEstimate, 0);
    assert_eq!(app.data.tasks[0].seconds_estimated, 2700);
    app.handle_intent(Intent::DecrementEstimate, 0);
    app.handle_intent(Intent::DecrementEstimate, 0);
    app.handle_intent(Intent::DecrementEstimate, 0);
    assert_eq!(app.data.tasks[0].seconds_estimated, 900);
    assert_eq!(app.data.tasks[1].seconds_estimated, 1800);
}

#[test]
fn new_task_appends_blank_and_enters_editing() {
    // A new-task intent on a 2-task queue appends a third task with a
    // 900 s estimate, no spend and empty text, and moves the selection
    // onto it.
    let mut app = app2();
    app.handle_intent(Intent::NewTask, 0);
    assert_eq!(app.data.tasks.len(), 3);
    assert_eq!(app.data.tasks[2].text, "");
    assert_eq!(app.data.tasks[2].seconds_estimated, 900);
    assert_eq!(app.data.tasks[2].seconds_spent, 0);
    assert!(!app.data.tasks[2].done);
    assert_eq!(app.selected_task_index, 2);
    assert_eq!(app.mode, Mode::Editing);
}

#[test]
fn submitted_text_lands_on_selected_task() {
    let mut app = app2();
    app.handle_intent(Intent::NewTask, 0);
    app.handle_intent(Intent::SubmitText(String::from("write tests")), 0);
    assert_eq!(app.mode, Mode::Normal);
    assert_eq!(app.data.tasks[2].text, "write tests");
}

#[test]
fn edit_intent_replaces_selected_text() {
    let mut app = app2();
    app.handle_intent(Intent::NavigateDown, 0);
    app.handle_intent(Intent::EditTask, 0);
    assert_eq!(app.mode, Mode::Editing);
    app.handle_intent(Intent::SubmitText(String::from("B2")), 0);
    assert_eq!(app.data.tasks[1].text, "B2");
    assert_eq!(app.data.tasks[0].text, "A");
}

#[test]
fn cancel_leaves_editing_and_keeps_appended_task() {
    let mut app = app2();
    app.handle_intent(Intent::NewTask, 0);
    app.handle_intent(Intent::Cancel, 0);
    assert_eq!(app.mode, Mode::Normal);
    assert_eq!(app.data.tasks.len(), 3);
    assert_eq!(app.data.tasks[2].text, "");
}

#[test]
fn cancel_discards_an_open_session() {
    let mut app = app2();
    app.handle_intent(Intent::ToggleWorking, 100);
    app.handle_intent(Intent::Cancel, 500);
    assert_eq!(app.mode, Mode::Normal);
    assert_eq!(app.data.tasks[0].seconds_spent, 0);
}

#[test]
fn queue_intents_are_noops_outside_normal_mode() {
    let mut app = app2();
    app.handle_intent(Intent::ToggleWorking, 0);
    let before = app.data.clone();
    app.handle_intent(Intent::NavigateDown, 10);
    app.handle_intent(Intent::ReorderDown, 10);
    app.handle_intent(Intent::NewTask, 10);
    app.handle_intent(Intent::IncrementEstimate, 10);
    app.handle_intent(Intent::DecrementEstimate, 10);
    assert_eq!(app.data, before);
    assert_eq!(app.selected_task_index, 0);
    assert_eq!(app.mode, Mode::Working);
}

#[test]
fn delete_last_selected_clamps_selection() {
    // Deleting the selected last task of a 2-task queue leaves one
    // task and clamps the selection to the new last valid index, 0.
    let mut app = app2();
    app.handle_intent(Intent::NavigateDown, 0);
    assert_eq!(app.selected_task_index, 1);
    app.handle_intent(Intent::DeleteTask, 0);
    assert_eq!(app.data.tasks.len(), 1);
    assert_eq!(app.selected_task_index, 0);
    assert_eq!(app.data.tasks[0].text, "A");
}

#[test]
fn delete_earlier_task_keeps_selection_index() {
    let mut app = App::new(
        Database::new(vec![mk("A", 900, 0), mk("B", 900, 0), mk("C", 900, 0)]),
        0,
    );
    app.handle_intent(Intent::DeleteTask, 0);
    assert_eq!(app.data.tasks.len(), 2);
    assert_eq!(app.selected_task_index, 0);
    assert_eq!(app.data.tasks[0].text, "B");
}

#[test]
fn terminate_folds_open_session_and_exits() {
    let mut app = app2();
    app.handle_intent(Intent::ToggleWorking, 100);
    let exit = app.handle_intent(Intent::Terminate, 400);
    assert!(exit);
    assert_eq!(app.data.tasks[0].seconds_spent, 300);
    assert_eq!(app.mode, Mode::Normal);
}

#[test]
fn terminate_from_normal_only_exits() {
    let mut app = app2();
    let exit = app.handle_intent(Intent::Terminate, 400);
    assert!(exit);
    assert_eq!(app.data.tasks[0].seconds_spent, 0);
}

#[test]
fn submit_and_cancel_are_noops_in_normal_mode() {
    let mut app = app2();
    let before = app.data.clone();
    app.handle_intent(Intent::SubmitText(String::from("stray")), 0);
    app.handle_intent(Intent::Cancel, 0);
    assert_eq!(app.data, before);
    assert_eq!(app.mode, Mode::Normal);
}

#[test]
fn update_changes_nothing() {
    let mut app = app2();
    let before = app.data.clone();
    assert_eq!(app.update(), Ok(()));
    assert_eq!(app.data, before);
    assert_eq!(app.mode, Mode::Normal);
}

#[test]
fn tick_cycles_animation_counter_through_four_frames() {
    let mut app = app2();
    let frames: Vec<usize> = (0..6)
        .map(|_| {
            app.tick();
            app.animation_counter
        })
        .collect();
    assert_eq!(frames, vec![1, 2, 3, 0, 1, 2]);
    assert_eq!(app.data, app2().data);
    assert_eq!(app.mode, Mode::Normal);
}

#[test]
fn line_edit_step_builds_and_trims_the_buffer() {
    let mut line: Vec<char> = Vec::new();
    assert!(!tasktimer::mode::line_edit_step(&mut line, EditKey::Char('h')));
    assert!(!tasktimer::mode::line_edit_step(&mut line, EditKey::Char('i')));
    assert!(!tasktimer::mode::line_edit_step(&mut line, EditKey::Char('!')));
    assert!(!tasktimer::mode::line_edit_step(&mut line, EditKey::Backspace));
    assert!(!tasktimer::mode::line_edit_step(&mut line, EditKey::Other));
    assert!(tasktimer::mode::line_edit_step(&mut line, EditKey::Enter));
    assert_eq!(line, vec!['h', 'i']);
    let mut empty: Vec<char> = Vec::new();
    assert!(!tasktimer::mode::line_edit_step(&mut empty, EditKey::Backspace));
    assert!(empty.is_empty());
}
