//! A small to-do list library: an ordered list of titled, timestamped,
//! completable tasks, stored as a JSON array in a text file.  The codec,
//! the mutation operations and the rendering are verified; file access
//! and argument parsing live outside the library.

pub mod cli;
pub mod error;
pub mod ops;
pub mod render;
pub mod store;
pub mod task;
pub mod text;

use vstd::prelude::*;

verus! {

use crate::cli::Action;
use crate::error::StoreError;
use crate::task::{views, Task};

/// What one invocation decided: the new store text, when the store is to
/// be rewritten, and the text to show the user (a listing or a notice).
pub struct StepResult {
    pub new_contents: Option<String>,
    pub output: String,
}

/// The action names a 1-based index that a list of length `len` lacks.
pub open spec fn action_index_bad(action: Action, len: nat) -> bool {
    match action {
        Action::List => false,
        Action::Add { .. } => false,
        Action::Remove { task_number } => !(1 <= task_number <= len),
        Action::Complete { task_number } => !(1 <= task_number <= len),
        Action::Move { task_number, new_position } => !(1 <= task_number <= len && 1
            <= new_position <= len),
        Action::Modify { task_number, .. } => !(1 <= task_number <= len),
    }
}

/// The step rewrites the store with exactly the encoding of `ts`.
pub open spec fn step_writes(step: StepResult, ts: Seq<Task>) -> bool {
    step.new_contents matches Some(out) && out@ == crate::store::enc_tasks(views(ts))
}

/// What a successful step promises, given the decoded store `ts0`.
pub open spec fn step_ok(action: Action, ts0: Seq<Task>, step: StepResult) -> bool {
    match action {
        Action::List => step.new_contents is None && exists|dates: Seq<Seq<char>>|
            dates.len() == ts0.len() && step.output@ == crate::render::render_spec(
                views(ts0),
                dates,
            ),
        Action::Add { title } => step.output@ == Seq::<char>::empty() && exists|t: Task|
            (#[trigger] t.title) == title && t.done == false && step_writes(
                step,
                ts0.insert(crate::ops::pending_count(ts0) as int, t),
            ),
        Action::Remove { task_number } => 1 <= task_number <= ts0.len() && step.output@
            == Seq::<char>::empty() && step_writes(step, ts0.remove(task_number - 1)),
        Action::Complete { task_number } => 1 <= task_number <= ts0.len() && step.output@
            == Seq::<char>::empty() && exists|d: i64|
            step_writes(
                step,
                ts0.remove(task_number - 1).push(
                    #[trigger] crate::ops::toggled(ts0[task_number - 1], d),
                ),
            ),
        Action::Move { task_number, new_position } => 1 <= task_number <= ts0.len() && 1
            <= new_position <= ts0.len() && step_writes(
            step,
            crate::ops::moved_spec(ts0, task_number as int, new_position as int),
        ) && step.output@ == (if new_position > crate::ops::pending_count(ts0) {
            "New position out of undone tasks' range, moving to the end of the list.\n"@
        } else {
            Seq::<char>::empty()
        }),
        Action::Modify { task_number, title } => 1 <= task_number <= ts0.len() && step_writes(
            step,
            crate::ops::modified_spec(ts0, task_number as int, title),
        ) && step.output@ == (if ts0[task_number - 1].done {
            "Can't modify a completed task.\n"@
        } else {
            Seq::<char>::empty()
        }),
    }
}

/// Dispatches one action against the current store text.
///
/// On success, a `new_contents` of `Some` asks the caller to overwrite
/// the store file with exactly that text; `List` never rewrites it.
/// `CorruptStore` comes exactly on malformed store text, and
/// `IndexOutOfRange` exactly on an index the decoded list lacks, with
/// nothing written either way.
pub fn try_main(action: Action, contents: &str) -> (r: Result<StepResult, StoreError>)
    ensures
        match r {
            Ok(step) => crate::store::parse_tasks_spec(contents@) matches Some(vs)
                && exists|ts0: Seq<Task>| #[trigger] views(ts0) == vs && step_ok(action, ts0, step),
            Err(e) => (e == StoreError::CorruptStore && crate::store::parse_tasks_spec(contents@)
                is None) || (e == StoreError::IndexOutOfRange
                && (crate::store::parse_tasks_spec(contents@) matches Some(vs)
                && action_index_bad(action, vs.len()))),
        },
{
    let mut tasks = crate::store::decode_tasks(contents)?;
    let ghost ts0 = tasks@;
    match action {
        Action::List => {
            let output = crate::render::list_tasks(&tasks);
            Ok(StepResult { new_contents: None, output })
        },
        Action::Add { title } => {
            let task = Task::new(title);
            let ghost t = task;
            crate::ops::add_task(&mut tasks, task);
            let out = crate::store::encode_tasks(&tasks);
            let step = StepResult { new_contents: Some(out), output: String::new() };
            proof {
                assert(t.title == title && t.done == false && step_writes(
                    step,
                    ts0.insert(crate::ops::pending_count(ts0) as int, t),
                ));
            }
            Ok(step)
        },
        Action::Remove { task_number } => {
            crate::ops::remove_task(&mut tasks, task_number)?;
            let out = crate::store::encode_tasks(&tasks);
            Ok(StepResult { new_contents: Some(out), output: String::new() })
        },
        Action::Complete { task_number } => {
            let now = crate::task::now_seconds();
            crate::ops::complete_task(&mut tasks, task_number, now)?;
            let out = crate::store::encode_tasks(&tasks);
            let step = StepResult { new_contents: Some(out), output: String::new() };
            proof {
                assert(step_writes(
                    step,
                    ts0.remove(task_number - 1).push(crate::ops::toggled(ts0[task_number - 1], now)),
                ));
            }
            Ok(step)
        },
        Action::Move { task_number, new_position } => {
            let noticed = crate::ops::move_task(&mut tasks, task_number, new_position)?;
            let out = crate::store::encode_tasks(&tasks);
            let output = if noticed {
                String::from_str(
                    "New position out of undone tasks' range, moving to the end of the list.\n",
                )
            } else {
                String::new()
            };
            Ok(StepResult { new_contents: Some(out), output })
        },
        Action::Modify { task_number, title } => {
            let noticed = crate::ops::modify_task(&mut tasks, task_number, title)?;
            let out = crate::store::encode_tasks(&tasks);
            let output = if noticed {
                String::from_str("Can't modify a completed task.\n")
            } else {
                String::new()
            };
            Ok(StepResult { new_contents: Some(out), output })
        },
    }
}

} // verus!
