//! Reading a data file back under the schema the table has now.

use crate::encoding::{decode_file, parse_file};
use crate::rows::{batch_fits, projected, rows_view, BatchSpec, Value, ValueSpec};
use crate::schema::{unique_names, ColumnSpec, Schema};
use vstd::prelude::*;

verus! {
/// The rows that the bytes of a data file hold, laid out by `schema`: the values of
/// the columns that the file has, null for the columns it lacks. Nothing where the
/// bytes are no data file, where the file's layout names a column twice, or where
/// one of its rows does not satisfy `schema`.
pub open spec fn rows_under(schema: Seq<ColumnSpec>, bytes: Seq<u8>) -> Option<
    Seq<Seq<ValueSpec>>,
> {
    match parse_file(bytes) {
        Some((layout, rows)) => {
            let held = BatchSpec { schema: layout, rows };
            if unique_names(layout) && batch_fits(schema, held) {
                Some(projected(schema, held))
            } else {
                None
            }
        },
        None => None,
    }
}

/// Reads the rows of a data file under `schema`, in the order in which they were
/// written. A file written under an older schema is read with a null for each
/// column it lacks; it is never rewritten.
pub fn read_file(schema: &Schema, bytes: &Vec<u8>) -> (r: Option<Vec<Vec<Value>>>)
    ensures
        match r {
            Some(rows) => rows_under(schema@, bytes@) == Some(rows_view(rows@)),
            None => rows_under(schema@, bytes@) is None,
        },
{
    match decode_file(bytes) {
        Some(batch) => match batch.project_onto(schema) {
            Ok(rows) => Some(rows),
            Err(_) => None,
        },
        None => None,
    }
}

} // verus!
