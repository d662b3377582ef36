use tasktimer::codec::{decode_data, encode_data};
use tasktimer::queue::{default_data, Database};
use tasktimer::task::Task;
use tasktimer::EngineError;

fn mk(text: &str, est: i64, spent: i64, done: bool) -> Task {
    Task { text: String::from(text), seconds_estimated: est, seconds_spent: spent, done }
}

#[test]
fn encode_writes_the_canonical_object() {
    let db = default_data();
    let s = encode_data(&db);
    assert_eq!(
        s,
        "{\"tasks\":[\
         {\"text\":\"Task 1\",\"seconds_estimated\":1800,\"seconds_spent\":0,\"done\":false},\
         {\"text\":\"Task 2\",\"seconds_estimated\":1800,\"seconds_spent\":0,\"done\":false}\
         ]}"
    );
}

#[test]
fn saving_then_loading_reproduces_the_list() {
    let db = Database::new(vec![
        mk("Task 1", 1800, 0, false),
        mk("review \"draft\" notes", 900, 345, true),
        mk("path C:\\work\\notes", 9_223_372_036_854_775_807, 0, false),
        mk("", 0, 77, false),
    ]);
    let back = decode_data(&encode_data(&db)).expect("round trip should decode");
    assert_eq!(back, db);
}

#[test]
fn empty_queue_round_trips() {
    let db = Database::new(Vec::new());
    assert_eq!(encode_data(&db), "{\"tasks\":[]}");
    let back = decode_data("{\"tasks\":[]}").expect("empty list should decode");
    assert_eq!(back.tasks.len(), 0);
}

#[test]
fn decode_accepts_a_stored_list_without_done_flags() {
    let s = "{\"tasks\":[{\"text\":\"A\",\"seconds_estimated\":1800,\"seconds_spent\":25}]}";
    let db = decode_data(s).expect("done-less record should decode");
    assert_eq!(db.tasks.len(), 1);
    assert_eq!(db.tasks[0].text, "A");
    assert_eq!(db.tasks[0].seconds_estimated, 1800);
    assert_eq!(db.tasks[0].seconds_spent, 25);
    assert!(!db.tasks[0].done);
}

#[test]
fn decode_reads_escapes() {
    let s = "{\"tasks\":[{\"text\":\"a\\\"b\\\\c\\nd\",\"seconds_estimated\":900,\"seconds_spent\":0,\"done\":true}]}";
    let db = decode_data(s).expect("escaped text should decode");
    assert_eq!(db.tasks[0].text, "a\"b\\c\nd");
    assert!(db.tasks[0].done);
}

#[test]
fn decode_rejects_malformed_input() {
    let bad = [
        "",
        "{}",
        "{\"other\":1}",
        "{\"tasks\":",
        "{\"tasks\":[",
        "{\"tasks\":[]",
        "{\"tasks\":[]}}",
        "{\"tasks\":{}}",
        "{\"tasks\":[{\"text\":\"A\",\"seconds_estimated\":-5,\"seconds_spent\":0}]}",
        "{\"tasks\":[{\"text\":\"A\",\"seconds_estimated\":1.5,\"seconds_spent\":0}]}",
        "{\"tasks\":[{\"text\":\"A\",\"seconds_estimated\":99999999999999999999,\"seconds_spent\":0}]}",
        "{\"tasks\":[{\"text\":\"A\",\"seconds_estimated\":1800,\"seconds_spent\":0,\"done\":maybe}]}",
        "{\"tasks\":[{\"text\":\"A\",}]}",
        "[1,2,3]",
    ];
    for s in bad {
        assert_eq!(
            decode_data(s),
            Err(EngineError::PersistenceUnavailable),
            "should reject {:?}",
            s
        );
    }
}

#[test]
fn decode_defaults_missing_members() {
    // A task object may omit any member; what is missing defaults to
    // the empty text, zero seconds and not done.
    let db = decode_data("{\"tasks\":[{}]}").expect("an empty task object should decode");
    assert_eq!(db.tasks.len(), 1);
    assert_eq!(db.tasks[0].text, "");
    assert_eq!(db.tasks[0].seconds_estimated, 0);
    assert_eq!(db.tasks[0].seconds_spent, 0);
    assert!(!db.tasks[0].done);

    let db = decode_data("{\"tasks\":[{\"text\":\"A\"}]}").expect("a text-only record should decode");
    assert_eq!(db.tasks[0].text, "A");
    assert_eq!(db.tasks[0].seconds_estimated, 0);

    let db = decode_data("{\"tasks\":[{\"done\":true}]}").expect("a done-only record should decode");
    assert!(db.tasks[0].done);
    assert_eq!(db.tasks[0].text, "");
}

#[test]
fn decode_accepts_members_in_any_order() {
    let s = "{\"tasks\":[{\"done\":true,\"seconds_spent\":7,\"text\":\"A\",\"seconds_estimated\":900}]}";
    let db = decode_data(s).expect("reordered members should decode");
    assert_eq!(db.tasks[0].text, "A");
    assert_eq!(db.tasks[0].seconds_estimated, 900);
    assert_eq!(db.tasks[0].seconds_spent, 7);
    assert!(db.tasks[0].done);
}

#[test]
fn decode_ignores_unknown_members() {
    let s = "{\"version\":2,\"tasks\":[{\"text\":\"A\",\"note\":\"keep\",\"tags\":[1,{\"x\":null}],\"seconds_estimated\":900,\"priority\":-1.5e3,\"seconds_spent\":0}],\"extra\":{\"a\":[true]}}";
    let db = decode_data(s).expect("unknown members should be skipped");
    assert_eq!(db.tasks.len(), 1);
    assert_eq!(db.tasks[0].text, "A");
    assert_eq!(db.tasks[0].seconds_estimated, 900);
    assert_eq!(db.tasks[0].seconds_spent, 0);
}

#[test]
fn decode_tolerates_whitespace_and_trailing_newline() {
    let s = " {\n  \"tasks\" : [\n    { \"text\" : \"A\" , \"seconds_estimated\" : 1800 , \"seconds_spent\" : 0 }\n  ]\n}\n";
    let db = decode_data(s).expect("whitespace between tokens should decode");
    assert_eq!(db.tasks.len(), 1);
    assert_eq!(db.tasks[0].text, "A");
    assert_eq!(db.tasks[0].seconds_estimated, 1800);
}

#[test]
fn control_characters_escape_and_round_trip() {
    let db = Database::new(vec![mk("a\nb\tc\u{7}d", 900, 0, false)]);
    let s = encode_data(&db);
    // The escaped form is valid JSON to an outside parser.
    let v: serde_json::Value = serde_json::from_str(&s).expect("valid JSON");
    assert_eq!(v["tasks"][0]["text"], "a\nb\tc\u{7}d");
    // And it decodes back unchanged.
    let back = decode_data(&s).expect("control characters should round trip");
    assert_eq!(back, db);
}

#[test]
fn decode_reads_unicode_and_named_escapes() {
    let s = "{\"tasks\":[{\"text\":\"x\\u0007y\\bz\\f\\u0041\"}]}";
    let db = decode_data(s).expect("unicode escapes should decode");
    assert_eq!(db.tasks[0].text, "x\u{7}y\u{8}z\u{c}A");
}

#[test]
fn decode_rejects_number_overflowing_storage() {
    // 2^63 is one past the largest storable estimate.
    let s = "{\"tasks\":[{\"text\":\"A\",\"seconds_estimated\":9223372036854775808,\"seconds_spent\":0}]}";
    assert_eq!(decode_data(s), Err(EngineError::PersistenceUnavailable));
}

#[test]
fn encoded_form_is_readable_by_a_json_parser() {
    let db = Database::new(vec![
        mk("plan \"v2\"", 2700, 90, true),
        mk("back\\slash", 900, 0, false),
    ]);
    let v: serde_json::Value = serde_json::from_str(&encode_data(&db)).expect("valid JSON");
    let tasks = v["tasks"].as_array().expect("a tasks array");
    assert_eq!(tasks.len(), 2);
    assert_eq!(tasks[0]["text"], "plan \"v2\"");
    assert_eq!(tasks[0]["seconds_estimated"], 2700);
    assert_eq!(tasks[0]["seconds_spent"], 90);
    assert_eq!(tasks[0]["done"], true);
    assert_eq!(tasks[1]["text"], "back\\slash");
    assert_eq!(tasks[1]["done"], false);
}
