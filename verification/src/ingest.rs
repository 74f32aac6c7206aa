//! Ingestion: from a table state and row batches to the schema the write targets,
//! the encoded data files, and the plan a commit is built from.

use crate::encoding::{encode_file, file_bytes, parse_file};
use crate::error::TableError;
use crate::log::{DataFileRef, TableState};
use crate::rows::{
    batch_fits, is_first_bad_row, projected, row_view, rows_view, BatchSpec, RowBatch,
};
use crate::schema::{
    compatible, grown, is_first_conflict, lemma_grown_twice, lemma_merge_grows, merged, ColumnSpec,
    Schema,
};
use vstd::prelude::*;

verus! {
/// What an ingestion settled: the schema the write targets, the new data files in
/// the order of the batches they hold, and the number of rows in all of them.
#[derive(Debug)]
pub struct IngestPlan {
    pub target_schema: Schema,
    pub new_files: Vec<DataFileRef>,
    pub row_count: u128,
}

/// What a plan is.
pub struct PlanSpec {
    pub target_schema: Seq<ColumnSpec>,
    pub new_files: Seq<DataFileRef>,
    pub row_count: int,
}

impl View for IngestPlan {
    type V = PlanSpec;

    open spec fn view(&self) -> PlanSpec {
        PlanSpec {
            target_schema: self.target_schema@,
            new_files: self.new_files@,
            row_count: self.row_count as int,
        }
    }
}

/// A plan with the bytes of each of its new files, in the plan's order. The caller
/// persists `payloads[i]` under the handle `plan.new_files[i]` before it commits.
#[derive(Debug)]
pub struct Ingested {
    pub plan: IngestPlan,
    pub payloads: Vec<Vec<u8>>,
}

/// The batches of `v`, each by its view.
pub open spec fn batches_view(v: Seq<RowBatch>) -> Seq<BatchSpec> {
    Seq::new(v.len(), |i: int| v[i]@)
}

/// The byte sequences of `v`.
pub open spec fn payloads_view(v: Seq<Vec<u8>>) -> Seq<Seq<u8>> {
    Seq::new(v.len(), |i: int| v[i]@)
}

/// The schema that a write of the batches into a table of schema `cur` targets:
/// the schemas of the batches merged into `cur` one after the other, or nothing
/// where one of them conflicts with what was merged before it.
pub open spec fn target_of(cur: Seq<ColumnSpec>, batches: Seq<BatchSpec>) -> Option<
    Seq<ColumnSpec>,
>
    decreases batches.len(),
{
    if batches.len() == 0 {
        Some(cur)
    } else {
        match target_of(cur, batches.drop_last()) {
            Some(t) => if compatible(t, batches.last().schema) {
                Some(merged(t, batches.last().schema))
            } else {
                None
            },
            None => None,
        }
    }
}

/// The number of rows in all the batches.
pub open spec fn total_rows(batches: Seq<BatchSpec>) -> nat
    decreases batches.len(),
{
    if batches.len() == 0 {
        0
    } else {
        total_rows(batches.drop_last()) + batches.last().rows.len()
    }
}

/// The bytes of the data file that holds batch `b`, laid out by `target`.
pub open spec fn payload_of(target: Seq<ColumnSpec>, b: BatchSpec) -> Seq<u8> {
    file_bytes(target, projected(target, b))
}

/// The handle of the data file that holds batch `b`, the `i`-th of its ingestion.
pub open spec fn file_of(target: Seq<ColumnSpec>, b: BatchSpec, writer: u64, i: int) -> DataFileRef {
    DataFileRef {
        writer,
        part: i as u64,
        row_count: b.rows.len() as u64,
        byte_size: payload_of(target, b).len() as u64,
    }
}

/// One of the files was made by `writer`.
pub open spec fn made_by(files: Seq<DataFileRef>, writer: u64) -> bool {
    exists|i: int| 0 <= i < files.len() && (#[trigger] files[i]).writer == writer
}

/// Batch `b` is the first whose schema conflicts with what was merged before it,
/// and `column` is the first of its columns that does.
pub open spec fn is_first_conflicting_batch(
    cur: Seq<ColumnSpec>,
    batches: Seq<BatchSpec>,
    b: int,
    column: Seq<char>,
) -> bool {
    &&& 0 <= b < batches.len()
    &&& target_of(cur, batches.take(b)) matches Some(t)
    &&& exists|j: int|
        is_first_conflict(t, batches[b].schema, j) && (#[trigger] batches[b].schema[j]).name
            == column
}

/// Row `row` of batch `b` is the first row, in the order of the batches and of
/// their rows, that does not satisfy `target`.
pub open spec fn is_first_bad(target: Seq<ColumnSpec>, batches: Seq<BatchSpec>, b: int, row: int) -> bool {
    &&& 0 <= b < batches.len()
    &&& is_first_bad_row(target, batches[b], row)
    &&& forall|k: int| 0 <= k < b ==> batch_fits(target, #[trigger] batches[k])
}

/// The target schema grows from the table's schema: every column of the table
/// stays as it is, and what the batches add is nullable.
pub proof fn lemma_target_grows(cur: Seq<ColumnSpec>, batches: Seq<BatchSpec>)
    requires
        target_of(cur, batches) is Some,
    ensures
        grown(cur, target_of(cur, batches)->0),
    decreases batches.len(),
{
    if batches.len() > 0 {
        let before = target_of(cur, batches.drop_last())->0;
        lemma_target_grows(cur, batches.drop_last());
        lemma_merge_grows(before, batches.last().schema);
        lemma_grown_twice(cur, before, merged(before, batches.last().schema));
    }
}

/// Plans the write of `batches` into the table `state`, for the writer `writer`.
///
/// The target schema is the table's schema with the schema of each batch merged
/// into it, in the order of the batches. Every row must satisfy it once laid out
/// by it; a column that a batch lacks counts as null in each of its rows. Each
/// batch then becomes one data file, numbered by its place, that holds the rows of
/// the batch in their order.
///
/// `writer` names this one ingestion. The new files carry it, so that they are
/// named apart from every file of every other ingestion; where a live file of the
/// table carries it already, the ingestion is refused with `ConflictError`.
/// Nothing is handed out where it is refused, a schema conflicts or a row does
/// not fit.
pub fn ingest(state: &TableState, batches: &Vec<RowBatch>, writer: u64) -> (r: Result<
    Ingested,
    TableError,
>)
    ensures
        match r {
            Ok(done) => {
                &&& !made_by(state@.files, writer)
                &&& forall|b: int, i: int|
                    0 <= b < batches.len() && 0 <= i < state@.files.len()
                        ==> #[trigger] done.plan@.new_files[b] != #[trigger] state@.files[i]
                &&& target_of(state@.schema, batches_view(batches@)) == Some(
                    done.plan@.target_schema,
                )
                &&& forall|b: int|
                    0 <= b < batches.len() ==> batch_fits(
                        done.plan@.target_schema,
                        #[trigger] batches_view(batches@)[b],
                    )
                &&& done.plan@.new_files.len() == batches.len()
                &&& done.payloads.len() == batches.len()
                &&& forall|b: int|
                    0 <= b < batches.len() ==> #[trigger] done.plan@.new_files[b] == file_of(
                        done.plan@.target_schema,
                        batches_view(batches@)[b],
                        writer,
                        b,
                    )
                &&& forall|b: int|
                    0 <= b < batches.len() ==> (#[trigger] done.payloads[b])@ == payload_of(
                        done.plan@.target_schema,
                        batches_view(batches@)[b],
                    )
                &&& forall|b: int|
                    0 <= b < batches.len() ==> parse_file((#[trigger] done.payloads[b])@) == Some(
                        (
                            done.plan@.target_schema,
                            projected(done.plan@.target_schema, batches_view(batches@)[b]),
                        ),
                    )
                &&& done.plan@.row_count == total_rows(batches_view(batches@))
            },
            Err(TableError::ConflictError) => made_by(state@.files, writer),
            Err(TableError::SchemaConflict { column }) => !made_by(state@.files, writer)
                && exists|b: int|
                #[trigger] is_first_conflicting_batch(
                    state@.schema,
                    batches_view(batches@),
                    b,
                    column@,
                ),
            Err(TableError::RowValidationError { batch, row }) => {
                &&& !made_by(state@.files, writer)
                &&& target_of(state@.schema, batches_view(batches@)) matches Some(t)
                &&& is_first_bad(t, batches_view(batches@), batch as int, row as int)
            },
            Err(_) => false,
        },
        !made_by(state@.files, writer) && target_of(state@.schema, batches_view(batches@))
            is None ==> r matches Err(TableError::SchemaConflict { .. }),
{
    let live = state.files();
    let mut i: usize = 0;
    while i < live.len()
        invariant
            i <= live.len(),
            live@ == state@.files,
            forall|k: int| 0 <= k < i ==> (#[trigger] live[k]).writer != writer,
        decreases live.len() - i,
    {
        if live[i].writer == writer {
            return Err(TableError::ConflictError);
        }
        i += 1;
    }
    let ghost all = batches_view(batches@);
    let n = batches.len();
    let mut target = state.schema().duplicate();
    let mut b: usize = 0;
    assert(all.take(0) =~= Seq::<BatchSpec>::empty());
    while b < n
        invariant
            b <= n == batches.len(),
            all == batches_view(batches@),
            !made_by(state@.files, writer),
            target_of(state@.schema, all.take(b as int)) == Some(target@),
        decreases n - b,
    {
        proof {
            assert(all.take(b + 1).drop_last() =~= all.take(b as int));
        }
        match target.merge(batches[b].schema()) {
            Ok(next) => {
                target = next;
            },
            Err(e) => {
                proof {
                    if let TableError::SchemaConflict { column } = &e {
                        assert(is_first_conflicting_batch(state@.schema, all, b as int, column@));
                    }
                }
                return Err(e);
            },
        }
        b += 1;
    }
    assert(all.take(n as int) =~= all);
    let mut new_files: Vec<DataFileRef> = Vec::new();
    let mut payloads: Vec<Vec<u8>> = Vec::new();
    let mut row_count: u128 = 0;
    let mut b: usize = 0;
    while b < n
        invariant
            b <= n == batches.len(),
            all == batches_view(batches@),
            row_count <= b * u64::MAX,
            target_of(state@.schema, all) == Some(target@),
            !made_by(state@.files, writer),
            new_files.len() == b,
            payloads.len() == b,
            row_count == total_rows(all.take(b as int)),
            forall|k: int| 0 <= k < b ==> batch_fits(target@, #[trigger] all[k]),
            forall|k: int|
                0 <= k < b ==> #[trigger] new_files[k] == file_of(target@, all[k], writer, k),
            forall|k: int| 0 <= k < b ==> (#[trigger] payloads[k])@ == payload_of(target@, all[k]),
            forall|k: int|
                0 <= k < b ==> parse_file((#[trigger] payloads[k])@) == Some(
                    (target@, projected(target@, all[k])),
                ),
        decreases n - b,
    {
        proof {
            assert(all.take(b + 1).drop_last() =~= all.take(b as int));
        }
        match batches[b].project_onto(&target) {
            Ok(rows) => {
                proof {
                    assert forall|r: int| 0 <= r < rows.len() implies (#[trigger] rows[r]).len()
                        == target@.len() by {
                        let laid = projected(target@, all[b as int]);
                        assert(rows_view(rows@) == laid);
                        assert(laid.len() == rows.len());
                        assert(laid[r].len() == target@.len());
                        assert(rows_view(rows@)[r] == row_view(rows[r]@));
                    }
                }
                let payload = encode_file(&target, &rows);
                new_files.push(
                    DataFileRef {
                        writer,
                        part: b as u64,
                        row_count: rows.len() as u64,
                        byte_size: payload.len() as u64,
                    },
                );
                payloads.push(payload);
                row_count = row_count + rows.len() as u128;
            },
            Err(row) => {
                return Err(TableError::RowValidationError { batch: b, row });
            },
        }
        b += 1;
    }
    assert(all.take(n as int) =~= all);
    Ok(Ingested { plan: IngestPlan { target_schema: target, new_files, row_count }, payloads })
}

} // verus!
