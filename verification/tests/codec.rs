//! The store codec: encoding, decoding, and the round trip.

use rusty_journal::error::StoreError;
use rusty_journal::store::{decode_tasks, encode_tasks};
use rusty_journal::task::Task;

fn task(title: &str, date: i64, done: bool) -> Task {
    Task { title: String::from(title), creation_date: date, done }
}

fn same_tasks(a: &[Task], b: &[Task]) -> bool {
    a.len() == b.len()
        && a.iter().zip(b.iter()).all(|(x, y)| {
            x.title == y.title && x.creation_date == y.creation_date && x.done == y.done
        })
}

#[test]
fn round_trip_plain() {
    let tasks = vec![
        task("buy milk", 1700000000, false),
        task("write report", 1700000100, true),
        task("call home", -5, false),
    ];
    let text = encode_tasks(&tasks);
    let back = decode_tasks(&text).unwrap();
    assert!(same_tasks(&tasks, &back));
}

#[test]
fn round_trip_empty_list() {
    let tasks: Vec<Task> = Vec::new();
    let text = encode_tasks(&tasks);
    assert_eq!(text, "[]");
    let back = decode_tasks(&text).unwrap();
    assert!(back.is_empty());
}

#[test]
fn round_trip_special_characters() {
    let tasks = vec![
        task("say \"hi\"", 0, false),
        task("back\\slash and\nnewline\tand tab", 1, true),
        task("control\u{1}char and carriage\r", 2, false),
        task("unicode: grüße 汉字", 3, false),
    ];
    let text = encode_tasks(&tasks);
    let back = decode_tasks(&text).unwrap();
    assert!(same_tasks(&tasks, &back));
}

#[test]
fn round_trip_extreme_timestamps() {
    let tasks = vec![task("oldest", i64::MIN, false), task("newest", i64::MAX, true)];
    let text = encode_tasks(&tasks);
    let back = decode_tasks(&text).unwrap();
    assert!(same_tasks(&tasks, &back));
}

#[test]
fn encoded_text_exact() {
    let tasks = vec![task("buy milk", 42, false)];
    let text = encode_tasks(&tasks);
    let expected = "[\n  {\n    \"title\": \"buy milk\",\n    \"creation_date\": 42,\n    \"done\": false\n  }\n]";
    assert_eq!(text, expected);
}

#[test]
fn encoded_text_is_valid_json() {
    let tasks = vec![task("say \"hi\"\n", -17, true), task("plain", 9, false)];
    let text = encode_tasks(&tasks);
    let value: serde_json::Value = serde_json::from_str(&text).unwrap();
    let arr = value.as_array().unwrap();
    assert_eq!(arr.len(), 2);
    assert_eq!(arr[0]["title"].as_str().unwrap(), "say \"hi\"\n");
    assert_eq!(arr[0]["creation_date"].as_i64().unwrap(), -17);
    assert_eq!(arr[0]["done"].as_bool().unwrap(), true);
    assert_eq!(arr[1]["title"].as_str().unwrap(), "plain");
    assert_eq!(arr[1]["creation_date"].as_i64().unwrap(), 9);
    assert_eq!(arr[1]["done"].as_bool().unwrap(), false);
}

#[test]
fn load_empty_text_gives_empty_list() {
    assert!(decode_tasks("").unwrap().is_empty());
    assert!(decode_tasks("   \n\t\r  ").unwrap().is_empty());
    assert!(decode_tasks("[]").unwrap().is_empty());
    assert!(decode_tasks(" [ ] ").unwrap().is_empty());
}

#[test]
fn load_malformed_text_gives_corrupt_store() {
    let bad = [
        "nonsense",
        "{\"title\": \"x\"}",
        "[{",
        "[{\"title\": \"x\"",
        "[{\"title\": \"x\", \"creation_date\": 1, \"done\": false}",
        "[{\"title\": \"x\", \"creation_date\": 1, \"done\": false},]",
        "[{\"title\": \"x\", \"creation_date\": 99999999999999999999, \"done\": false}]",
        "[{\"title\": \"x\", \"creation_date\": 1, \"done\": maybe}]",
        "[1, 2]",
        "[] trailing",
    ];
    for text in bad.iter() {
        assert_eq!(decode_tasks(text), Err(StoreError::CorruptStore), "input: {}", text);
    }
}

#[test]
fn load_accepts_whitespace_between_tokens() {
    let text = " [ {\n \"title\" : \"x\" ,\n \"creation_date\" :\t-3 ,\n \"done\" : true } ] ";
    let back = decode_tasks(text).unwrap();
    assert_eq!(back.len(), 1);
    assert_eq!(back[0].title, "x");
    assert_eq!(back[0].creation_date, -3);
    assert!(back[0].done);
}

#[test]
fn load_accepts_escapes() {
    let text = "[{\"title\": \"a\\\"b\\\\c\\/d\\n\\t\\r\\b\\f\\u0007\", \"creation_date\": 0, \"done\": false}]";
    let back = decode_tasks(text).unwrap();
    assert_eq!(back[0].title, "a\"b\\c/d\n\t\r\u{8}\u{c}\u{7}");
}

#[test]
fn error_messages() {
    assert_eq!(StoreError::CorruptStore.message(), "the task list file is corrupt");
    assert_eq!(StoreError::IndexOutOfRange.message(), "Task number out of list's range");
    assert_eq!(StoreError::IoError.message(), "could not access the task list file");
}
