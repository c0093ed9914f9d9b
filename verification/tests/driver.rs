//! The dispatcher: whole invocations against an in-memory store text.

use rusty_journal::cli::Action;
use rusty_journal::error::StoreError;
use rusty_journal::render::list_tasks;
use rusty_journal::task::Task;
use rusty_journal::try_main;

fn run_ok(action: Action, contents: &str) -> (String, String) {
    let step = try_main(action, contents).unwrap();
    let new_contents = match step.new_contents {
        Some(text) => text,
        None => String::from(contents),
    };
    (new_contents, step.output)
}

#[test]
fn end_to_end_scenario() {
    // Start from an empty store; add two tasks, complete the first, list.
    let (store, out) = run_ok(Action::Add { title: String::from("buy milk") }, "");
    assert_eq!(out, "");
    let (store, out) = run_ok(Action::Add { title: String::from("write report") }, &store);
    assert_eq!(out, "");
    let (store, out) = run_ok(Action::Complete { task_number: 1 }, &store);
    assert_eq!(out, "");
    let (store2, listing) = run_ok(Action::List, &store);
    // List never rewrites the store.
    assert_eq!(store, store2);
    // "write report" is item 1, still pending; "buy milk" is item 2, done.
    assert!(listing.contains("[1] write report"));
    assert!(listing.contains("[2|Done] buy milk"));
    let pending_line = listing.lines().find(|l| l.contains("[1]")).unwrap();
    assert!(!pending_line.contains("Done"));
}

#[test]
fn errors_do_not_rewrite_the_store() {
    let (store, _) = run_ok(Action::Add { title: String::from("solo") }, "");
    for n in [0usize, 2, 9] {
        let r = try_main(Action::Remove { task_number: n }, &store);
        match r {
            Err(StoreError::IndexOutOfRange) => {},
            _ => panic!("expected IndexOutOfRange"),
        }
    }
    let r = try_main(Action::Complete { task_number: 0 }, &store);
    assert!(matches!(r, Err(StoreError::IndexOutOfRange)));
}

#[test]
fn corrupt_store_is_reported_for_any_action() {
    let r = try_main(Action::List, "[{broken");
    assert!(matches!(r, Err(StoreError::CorruptStore)));
    let r = try_main(Action::Add { title: String::from("x") }, "not json");
    assert!(matches!(r, Err(StoreError::CorruptStore)));
}

#[test]
fn move_notice_comes_only_on_done_region_target() {
    let (store, _) = run_ok(Action::Add { title: String::from("a") }, "");
    let (store, _) = run_ok(Action::Add { title: String::from("b") }, &store);
    let (store, _) = run_ok(Action::Add { title: String::from("c") }, &store);
    // All pending: moving within the pending range is silent.
    let (store, out) = run_ok(Action::Move { task_number: 1, new_position: 3 }, &store);
    assert_eq!(out, "");
    // Complete one task, then target its region: the move is redirected
    // to the end of the list and a notice is emitted.
    let (store, _) = run_ok(Action::Complete { task_number: 1 }, &store);
    let (_, out) = run_ok(Action::Move { task_number: 1, new_position: 3 }, &store);
    assert_eq!(
        out,
        "New position out of undone tasks' range, moving to the end of the list.\n"
    );
}

#[test]
fn modify_notice_on_completed_task() {
    let (store, _) = run_ok(Action::Add { title: String::from("a") }, "");
    let (store, _) = run_ok(Action::Complete { task_number: 1 }, &store);
    let (store, out) = run_ok(
        Action::Modify { task_number: 1, title: String::from("changed") },
        &store,
    );
    assert_eq!(out, "Can't modify a completed task.\n");
    // The title is unchanged in the persisted text.
    assert!(store.contains("\"a\""));
    assert!(!store.contains("changed"));
    // A pending task, by contrast, is retitled silently.
    let (store, _) = run_ok(Action::Complete { task_number: 1 }, &store);
    let (store, out) = run_ok(
        Action::Modify { task_number: 1, title: String::from("renamed") },
        &store,
    );
    assert_eq!(out, "");
    assert!(store.contains("renamed"));
}

#[test]
fn listing_empty_store_prints_notice() {
    let (_, listing) = run_ok(Action::List, "");
    assert_eq!(listing, "No tasks in the list.\n");
}

#[test]
fn listing_marks_done_tasks_in_green() {
    let tasks = vec![
        Task { title: String::from("pending one"), creation_date: 1700000000, done: false },
        Task { title: String::from("finished one"), creation_date: 1700000000, done: true },
    ];
    let listing = list_tasks(&tasks);
    // The done line is wrapped in the ANSI green and reset codes.
    assert!(listing.contains("\u{1b}[32m"));
    assert!(listing.contains("\u{1b}[0m"));
    let done_line = listing.lines().find(|l| l.contains("Done")).unwrap();
    assert!(done_line.starts_with("\u{1b}[32m[2|Done] finished one"));
    // Titles are padded to a fixed width before the date column.
    assert!(listing.contains("pending one               | "));
    // Each line carries a date of the form YYYY-MM-DD HH:MM.
    let pending_line = listing.lines().find(|l| l.starts_with("[1]")).unwrap();
    let date_part = pending_line.split(" | ").nth(1).unwrap();
    assert_eq!(date_part.len(), 16);
    assert_eq!(&date_part[4..5], "-");
    assert_eq!(&date_part[7..8], "-");
    assert_eq!(&date_part[13..14], ":");
}
