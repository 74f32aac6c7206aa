//! The failures that the table engine reports.

use vstd::prelude::*;

verus! {
/// Why an operation on a table did not go through.
#[derive(Debug, PartialEq, Eq)]
pub enum TableError {
    /// A declared schema names `column` twice.
    DuplicateColumn { column: String },
    /// `column` exists in the table with another type than the incoming one.
    SchemaConflict { column: String },
    /// Row `row` of batch `batch` does not satisfy the target schema.
    RowValidationError { batch: usize, row: usize },
    /// Another writer changed the table in a way the pending commit cannot follow.
    ConflictError,
    /// The version slot was taken on the first append and on each of `retries` retries.
    CommitExhaustedError { retries: u64 },
    /// The location holds something that is not a well-formed table log.
    TableLocationError,
    /// No checkpoint could be written.
    CheckpointError,
}

} // verus!
