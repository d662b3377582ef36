use tasktimer::queue::{default_app_data, default_data, Database, Direction};
use tasktimer::task::Task;
use tasktimer::EngineError;

fn mk(text: &str, est: i64, spent: i64) -> Task {
    Task { text: String::from(text), seconds_estimated: est, seconds_spent: spent, done: false }
}

fn texts(db: &Database) -> Vec<String> {
    db.tasks.iter().map(|t| t.text.clone()).collect()
}

#[test]
fn default_data_seeds_two_half_hour_tasks() {
    let db = default_data();
    assert_eq!(db.tasks.len(), 2);
    assert_eq!(db.tasks[0].text, "Task 1");
    assert_eq!(db.tasks[1].text, "Task 2");
    for t in &db.tasks {
        assert_eq!(t.seconds_estimated, 1800);
        assert_eq!(t.seconds_spent, 0);
        assert!(!t.done);
    }
}

#[test]
fn default_app_data_matches_default_data() {
    let a = default_app_data();
    let b = default_data();
    assert_eq!(a, b);
}

#[test]
fn append_adds_at_tail() {
    let mut db = default_data();
    db.append(mk("C", 900, 0));
    assert_eq!(db.tasks.len(), 3);
    assert_eq!(db.tasks[2].text, "C");
}

#[test]
fn swap_adjacent_boundary_up_is_noop() {
    let mut db = default_data();
    let before = db.clone();
    db.swap_adjacent(0, Direction::Up);
    assert_eq!(db, before);
}

#[test]
fn swap_adjacent_boundary_down_is_noop() {
    let mut db = default_data();
    let before = db.clone();
    db.swap_adjacent(1, Direction::Down);
    assert_eq!(db, before);
}

#[test]
fn swap_adjacent_out_of_range_is_noop() {
    let mut db = default_data();
    let before = db.clone();
    db.swap_adjacent(7, Direction::Up);
    db.swap_adjacent(7, Direction::Down);
    assert_eq!(db, before);
}

#[test]
fn swap_adjacent_exchanges_neighbours() {
    let mut db = Database::new(vec![mk("A", 900, 0), mk("B", 1800, 5), mk("C", 2700, 0)]);
    db.swap_adjacent(1, Direction::Down);
    assert_eq!(texts(&db), vec!["A", "C", "B"]);
    db.swap_adjacent(2, Direction::Up);
    assert_eq!(texts(&db), vec!["A", "B", "C"]);
}

#[test]
fn remove_out_of_range_is_error() {
    let mut db = default_data();
    assert_eq!(db.remove(2), Err(EngineError::OutOfRange));
    assert_eq!(db.tasks.len(), 2);
}

#[test]
fn remove_in_range_deletes_the_task() {
    let mut db = Database::new(vec![mk("A", 900, 0), mk("B", 1800, 0), mk("C", 2700, 0)]);
    assert_eq!(db.remove(1), Ok(()));
    assert_eq!(texts(&db), vec!["A", "C"]);
}

#[test]
fn adjust_estimate_adds_delta() {
    let mut db = default_data();
    assert_eq!(db.adjust_estimate(0, 900), Ok(()));
    assert_eq!(db.tasks[0].seconds_estimated, 2700);
}

#[test]
fn adjust_estimate_clamps_at_fifteen_minutes() {
    let mut db = default_data();
    assert_eq!(db.adjust_estimate(0, -1800), Ok(()));
    assert_eq!(db.tasks[0].seconds_estimated, 900);
}

#[test]
fn repeated_decrements_never_drop_below_floor() {
    let mut db = Database::new(vec![mk("A", 3600, 0)]);
    for _ in 0..10 {
        assert_eq!(db.adjust_estimate(0, -900), Ok(()));
        assert!(db.tasks[0].seconds_estimated >= 900);
    }
    assert_eq!(db.tasks[0].seconds_estimated, 900);
}

#[test]
fn adjust_estimate_out_of_range_is_error() {
    let mut db = default_data();
    assert_eq!(db.adjust_estimate(5, 900), Err(EngineError::OutOfRange));
    assert_eq!(db.tasks[0].seconds_estimated, 1800);
    assert_eq!(db.tasks[1].seconds_estimated, 1800);
}

#[test]
fn set_text_replaces_text_only() {
    let mut db = default_data();
    assert_eq!(db.set_text(1, String::from("renamed")), Ok(()));
    assert_eq!(db.tasks[1].text, "renamed");
    assert_eq!(db.tasks[1].seconds_estimated, 1800);
    assert_eq!(db.tasks[0].text, "Task 1");
}

#[test]
fn set_text_out_of_range_is_error() {
    let mut db = default_data();
    assert_eq!(db.set_text(9, String::from("x")), Err(EngineError::OutOfRange));
}

#[test]
fn set_text_allows_empty_strings() {
    let mut db = default_data();
    assert_eq!(db.set_text(0, String::new()), Ok(()));
    assert_eq!(db.tasks[0].text, "");
}
