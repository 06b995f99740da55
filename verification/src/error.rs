//! The kinds of failure that the engine reports.

use vstd::prelude::*;

verus! {

/// Why an operation was not carried out. Every fallible operation of the
/// library returns one of these kinds; none of them carries text for a user.
#[derive(Debug, Clone, Copy, PartialEq, Eq, Structural)]
pub enum DvcsError {
    /// The path does not exist.
    NotFound,
    /// The path exists but its content could not be read.
    Unreadable,
    /// No repository encloses the path, or the given root is not one.
    NoSuchRepository,
    /// The persisted state could not be understood.
    CorruptIndex,
    /// The state could not be persisted. The library hands out the text to
    /// persist and never fails to; whoever writes the text reports this.
    WriteFailed,
    /// The two sides of a merge removed different tokens of the ancestor.
    DeletionConflict,
    /// The path is not tracked.
    NoSuchEntry,
    /// The path to walk is not a directory.
    NoSuchDirectory,
    /// No path was given.
    EmptyPath,
}

} // verus!
