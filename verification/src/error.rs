//! The error kinds a store operation can report.

use vstd::prelude::*;

verus! {

/// Why a store operation failed.
#[derive(Clone, Copy, Debug, PartialEq, Eq, Structural)]
pub enum StoreError {
    /// The store file could not be opened, read or written.
    IoError,
    /// The store file holds text that is not a JSON array of tasks
    /// (and is not simply empty).
    CorruptStore,
    /// A 1-based task number was zero or larger than the list.
    IndexOutOfRange,
}

impl StoreError {
    /// A human-readable description of the error.
    pub fn message(&self) -> (r: String)
        ensures
            r@ == self.message_spec(),
    {
        match self {
            StoreError::IoError => String::from_str("could not access the task list file"),
            StoreError::CorruptStore => String::from_str("the task list file is corrupt"),
            StoreError::IndexOutOfRange => String::from_str("Task number out of list's range"),
        }
    }

    pub open spec fn message_spec(&self) -> Seq<char> {
        match self {
            StoreError::IoError => "could not access the task list file"@,
            StoreError::CorruptStore => "the task list file is corrupt"@,
            StoreError::IndexOutOfRange => "Task number out of list's range"@,
        }
    }
}

} // verus!
