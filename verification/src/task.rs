//! The task record: a title, a timestamp in UTC seconds, and a done flag.

use vstd::prelude::*;

verus! {

/// One to-do item.  `creation_date` holds UTC seconds since the epoch: the
/// moment the task was created, or of its most recent completion toggle.
#[derive(Debug)]
pub struct Task {
    pub title: String,
    pub creation_date: i64,
    pub done: bool,
}

/// The mathematical value of a task: its title as a character sequence,
/// its timestamp as an integer, and its done flag.
pub ghost struct TaskView {
    pub title: Seq<char>,
    pub creation_date: int,
    pub done: bool,
}

impl View for Task {
    type V = TaskView;

    open spec fn view(&self) -> TaskView {
        TaskView { title: self.title@, creation_date: self.creation_date as int, done: self.done }
    }
}

/// The views of a sequence of tasks, element by element.
pub open spec fn views(ts: Seq<Task>) -> Seq<TaskView> {
    Seq::new(ts.len(), |i: int| ts[i]@)
}

/// A task view whose timestamp fits the stored 64-bit field.
pub open spec fn tv_ok(t: TaskView) -> bool {
    i64::MIN <= t.creation_date <= i64::MAX
}

/// Relies on `chrono::Utc::now`: the current UTC time, in whole seconds
/// since the epoch.  Nothing is promised of the value.
#[verifier::external_body]
pub(crate) fn now_seconds() -> i64 {
    chrono::Utc::now().timestamp()
}

impl PartialEq for Task {
    fn eq(&self, other: &Task) -> (r: bool) {
        self.title == other.title && self.creation_date == other.creation_date && self.done
            == other.done
    }
}

impl vstd::std_specs::cmp::PartialEqSpecImpl for Task {
    open spec fn obeys_eq_spec() -> bool {
        true
    }

    open spec fn eq_spec(&self, other: &Task) -> bool {
        self.title@ == other.title@ && self.creation_date == other.creation_date && self.done
            == other.done
    }
}

impl Task {
    /// A fresh, pending task titled `title`, stamped with the current time.
    pub fn new(title: String) -> (r: Task)
        ensures
            r.title == title,
            r.done == false,
    {
        Task { title, creation_date: now_seconds(), done: false }
    }
}

} // verus!
