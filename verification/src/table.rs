//! Opening a table from its log, and creating one where the location holds none.

use crate::error::TableError;
use crate::log::{
    actions_view, state_at, ActionSpec, AppendOutcome, LogAction, LogStore, TableSpec, TableState,
};
use crate::schema::{ColumnSpec, Schema};
use vstd::prelude::*;

verus! {
/// One of the actions sets a schema.
pub open spec fn declares_schema(actions: Seq<ActionSpec>) -> bool {
    exists|i: int| 0 <= i < actions.len() && #[trigger] actions[i] is SetSchema
}

/// The versions are those of a table: there is a version 0, and it declares the
/// table's schema.
pub open spec fn is_table(commits: Seq<Seq<ActionSpec>>) -> bool {
    commits.len() > 0 && declares_schema(commits[0])
}

/// The action set that creates a table of schema `schema`.
pub open spec fn creation(schema: Seq<ColumnSpec>) -> Seq<ActionSpec> {
    seq![ActionSpec::SetSchema(schema)]
}

/// A table fresh from its creation: version 0, the declared schema, no files.
pub open spec fn fresh(schema: Seq<ColumnSpec>) -> TableSpec {
    TableSpec { version: 0, schema, files: Seq::empty() }
}

/// A table created fresh is, as of version 0, the declared schema and nothing else.
pub proof fn lemma_fresh_table(schema: Seq<ColumnSpec>)
    ensures
        is_table(seq![creation(schema)]),
        state_at(seq![creation(schema)], 0) == fresh(schema),
{
    reveal_with_fuel(crate::log::apply_commit, 2);
    reveal_with_fuel(crate::log::replay, 2);
}

/// Whether one of the actions sets a schema.
fn sets_schema(actions: &Vec<LogAction>) -> (b: bool)
    ensures
        b == declares_schema(actions_view(actions@)),
{
    let n = actions.len();
    let mut i: usize = 0;
    while i < n
        invariant
            i <= n == actions.len(),
            forall|k: int| 0 <= k < i ==> !(#[trigger] actions_view(actions@)[k] is SetSchema),
        decreases n - i,
    {
        match &actions[i] {
            LogAction::SetSchema(_) => {
                assert(actions_view(actions@)[i as int] is SetSchema);
                return true;
            },
            _ => {},
        }
        i += 1;
    }
    false
}

/// Creates the table: records the declared schema as version 0 of a log that
/// records nothing yet. A log that records anything is left as it is, and the
/// creation fails with `ConflictError`.
pub fn create_table(log: &mut LogStore, schema: Schema) -> (r: Result<TableState, TableError>)
    ensures
        match r {
            Ok(t) => {
                &&& old(log)@.commits.len() == 0
                &&& final(log)@.commits == seq![creation(schema@)]
                &&& final(log)@.checkpoints == old(log)@.checkpoints
                &&& t@ == fresh(schema@)
                &&& t@ == state_at(final(log)@.commits, 0)
            },
            Err(TableError::ConflictError) => old(log)@.commits.len() > 0 && final(log)@ == old(
                log,
            )@,
            Err(_) => false,
        },
{
    let mut actions: Vec<LogAction> = Vec::new();
    actions.push(LogAction::SetSchema(schema));
    proof {
        assert(actions_view(actions@) =~= creation(schema@));
        lemma_fresh_table(schema@);
    }
    match log.try_append(0, actions) {
        AppendOutcome::Appended => {
            proof {
                assert(log@.commits =~= seq![creation(schema@)]);
            }
            match log.state_as_of(0) {
                Some(t) => Ok(t),
                None => Err(TableError::ConflictError),
            }
        },
        _ => Err(TableError::ConflictError),
    }
}

/// Opens the table that the log records: its state as of the latest version.
///
/// A log that records nothing holds no table, which is no error: the answer is
/// `None`, and the caller may create the table. A log whose version 0 declares no
/// schema is not a table's log: that is `TableLocationError`, never `None`.
pub fn open_table(log: &LogStore) -> (r: Result<Option<TableState>, TableError>)
    ensures
        match r {
            Ok(Some(t)) => is_table(log@.commits) && t@ == state_at(
                log@.commits,
                log@.commits.len() - 1,
            ),
            Ok(None) => log@.commits.len() == 0,
            Err(TableError::TableLocationError) => log@.commits.len() > 0 && !is_table(
                log@.commits,
            ),
            Err(_) => false,
        },
{
    match log.actions_at(0) {
        None => Ok(None),
        Some(first) => {
            if sets_schema(first) {
                Ok(log.state())
            } else {
                Err(TableError::TableLocationError)
            }
        },
    }
}

/// Opens the table that the log records, or creates it with `schema` where the
/// log records nothing. A log that is not a table's log is an error and is left
/// untouched; it is never overwritten by a new table.
pub fn get_table(log: &mut LogStore, schema: Schema) -> (r: Result<TableState, TableError>)
    ensures
        match r {
            Ok(t) => if old(log)@.commits.len() == 0 {
                &&& final(log)@.commits == seq![creation(schema@)]
                &&& final(log)@.checkpoints == old(log)@.checkpoints
                &&& t@ == fresh(schema@)
            } else {
                &&& is_table(old(log)@.commits)
                &&& final(log)@ == old(log)@
                &&& t@ == state_at(old(log)@.commits, old(log)@.commits.len() - 1)
            },
            Err(TableError::TableLocationError) => old(log)@.commits.len() > 0 && !is_table(
                old(log)@.commits,
            ) && final(log)@ == old(log)@,
            Err(_) => false,
        },
{
    match open_table(log) {
        Ok(Some(t)) => Ok(t),
        Ok(None) => {
            match create_table(log, schema) {
                Ok(t) => Ok(t),
                Err(_) => Err(TableError::TableLocationError),
            }
        },
        Err(e) => Err(e),
    }
}

} // verus!
