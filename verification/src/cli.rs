//! The command surface: what one invocation asks the library to do.
//! Argument parsing itself happens outside the library; these types carry
//! its result.

use vstd::prelude::*;

verus! {

/// One subcommand, with its arguments.  Task numbers and positions are
/// 1-based, as shown to the user.
#[derive(Debug)]
pub enum Action {
    /// Add a new task to the list.
    Add { title: String },
    /// Mark a task as completed (or uncompleted again).
    Complete { task_number: usize },
    /// Remove a task from the list.
    Remove { task_number: usize },
    /// Move a task to another position in the list.
    Move { task_number: usize, new_position: usize },
    /// Modify the title of a task.
    Modify { task_number: usize, title: String },
    /// List all tasks.
    List,
}

/// A parsed command line: the action, and the store file to use in place
/// of the default one, if any.
#[derive(Debug)]
pub struct CliOptions {
    pub action: Action,
    pub file: Option<String>,
}

} // verus!
