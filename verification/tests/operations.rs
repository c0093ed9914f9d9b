//! The mutation operations: add, remove, complete, move, modify.

use rusty_journal::error::StoreError;
use rusty_journal::ops::{add_task, complete_task, modify_task, move_task, remove_task};
use rusty_journal::task::Task;

fn task(title: &str, done: bool) -> Task {
    Task { title: String::from(title), creation_date: 0, done }
}

fn titles(tasks: &[Task]) -> Vec<&str> {
    tasks.iter().map(|t| t.title.as_str()).collect()
}

#[test]
fn add_goes_after_last_pending() {
    // Two pending, two completed: the new task lands at position 3 (1-based).
    let mut tasks = vec![task("a", false), task("b", false), task("c", true), task("d", true)];
    add_task(&mut tasks, task("new", false));
    assert_eq!(titles(&tasks), vec!["a", "b", "new", "c", "d"]);
    assert!(!tasks[2].done);
    assert!(tasks[3].done && tasks[4].done);
}

#[test]
fn add_to_empty_and_all_done_lists() {
    let mut empty: Vec<Task> = Vec::new();
    add_task(&mut empty, task("only", false));
    assert_eq!(titles(&empty), vec!["only"]);

    let mut all_done = vec![task("x", true), task("y", true)];
    add_task(&mut all_done, task("front", false));
    assert_eq!(titles(&all_done), vec!["front", "x", "y"]);
}

#[test]
fn remove_deletes_by_one_based_index() {
    let mut tasks = vec![task("a", false), task("b", false), task("c", false)];
    assert_eq!(remove_task(&mut tasks, 2), Ok(()));
    assert_eq!(titles(&tasks), vec!["a", "c"]);
}

#[test]
fn out_of_range_indices_leave_list_unchanged() {
    let before = vec![task("a", false), task("b", true)];
    for n in [0usize, 3, 100] {
        let mut tasks = vec![task("a", false), task("b", true)];
        assert_eq!(remove_task(&mut tasks, n), Err(StoreError::IndexOutOfRange));
        assert_eq!(titles(&tasks), titles(&before));

        let mut tasks = vec![task("a", false), task("b", true)];
        assert_eq!(complete_task(&mut tasks, n, 7), Err(StoreError::IndexOutOfRange));
        assert_eq!(titles(&tasks), titles(&before));

        let mut tasks = vec![task("a", false), task("b", true)];
        assert_eq!(move_task(&mut tasks, n, 1), Err(StoreError::IndexOutOfRange));
        assert_eq!(titles(&tasks), titles(&before));

        let mut tasks = vec![task("a", false), task("b", true)];
        assert_eq!(move_task(&mut tasks, 1, n), Err(StoreError::IndexOutOfRange));
        assert_eq!(titles(&tasks), titles(&before));

        let mut tasks = vec![task("a", false), task("b", true)];
        assert_eq!(
            modify_task(&mut tasks, n, String::from("z")),
            Err(StoreError::IndexOutOfRange)
        );
        assert_eq!(titles(&tasks), titles(&before));
    }
}

#[test]
fn complete_toggles_and_moves_to_end() {
    let mut tasks = vec![task("a", false), task("b", false)];
    assert_eq!(complete_task(&mut tasks, 1, 111), Ok(()));
    assert_eq!(titles(&tasks), vec!["b", "a"]);
    assert!(tasks[1].done);
    assert_eq!(tasks[1].creation_date, 111);

    // Completing it again un-completes it and again relocates it to the end.
    assert_eq!(complete_task(&mut tasks, 2, 222), Ok(()));
    assert_eq!(titles(&tasks), vec!["b", "a"]);
    assert!(!tasks[1].done);
    assert_eq!(tasks[1].creation_date, 222);
}

#[test]
fn move_within_pending_range() {
    let mut tasks = vec![task("a", false), task("b", false), task("c", false)];
    assert_eq!(move_task(&mut tasks, 1, 3), Ok(false));
    assert_eq!(titles(&tasks), vec!["b", "c", "a"]);
}

#[test]
fn move_into_done_region_falls_back_to_end() {
    // One pending task and two completed ones: a target inside the done
    // region is redirected to the end of the list, with a notice.
    let mut tasks = vec![task("a", false), task("b", true), task("c", true)];
    assert_eq!(move_task(&mut tasks, 2, 2), Ok(true));
    assert_eq!(titles(&tasks), vec!["a", "c", "b"]);
}

#[test]
fn modify_pending_changes_title() {
    let mut tasks = vec![task("a", false), task("b", false)];
    assert_eq!(modify_task(&mut tasks, 2, String::from("b2")), Ok(false));
    assert_eq!(titles(&tasks), vec!["a", "b2"]);
}

#[test]
fn modify_completed_is_noop_with_notice() {
    let mut tasks = vec![task("a", false), task("b", true)];
    assert_eq!(modify_task(&mut tasks, 2, String::from("changed")), Ok(true));
    assert_eq!(titles(&tasks), vec!["a", "b"]);
    assert!(tasks[1].done);
}

#[test]
fn new_task_is_pending_with_given_title() {
    let t = Task::new(String::from("fresh"));
    assert_eq!(t.title, "fresh");
    assert!(!t.done);
}
