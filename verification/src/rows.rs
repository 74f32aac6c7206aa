//! Typed values, rows and row batches, and what it means for a row to satisfy a schema.

use crate::schema::{
    additions, compatible, conflict_with, grown, has_column, lemma_additions_origin, merged,
    position, unique_names, widened, Column, ColumnSpec, ColumnType, Schema,
};
use vstd::prelude::*;

verus! {
/// One typed value of a row, or the absence of one.
#[derive(Debug, PartialEq, Eq)]
pub enum Value {
    Null,
    Integer(i32),
    Long(i64),
    Boolean(bool),
    Text(String),
}

/// What a value is, with text as a sequence of characters.
pub enum ValueSpec {
    Null,
    Integer(i32),
    Long(i64),
    Boolean(bool),
    Text(Seq<char>),
}

impl View for Value {
    type V = ValueSpec;

    open spec fn view(&self) -> ValueSpec {
        match self {
            Value::Null => ValueSpec::Null,
            Value::Integer(x) => ValueSpec::Integer(*x),
            Value::Long(x) => ValueSpec::Long(*x),
            Value::Boolean(x) => ValueSpec::Boolean(*x),
            Value::Text(s) => ValueSpec::Text(s@),
        }
    }
}

/// The values of `r`, each by its view.
pub open spec fn row_view(r: Seq<Value>) -> Seq<ValueSpec> {
    Seq::new(r.len(), |i: int| r[i]@)
}

/// The rows of `rows`, each by its view.
pub open spec fn rows_view(rows: Seq<Vec<Value>>) -> Seq<Seq<ValueSpec>> {
    Seq::new(rows.len(), |i: int| row_view(rows[i]@))
}

/// A column accepts a value of its own type, and a null where it is nullable.
pub open spec fn admits(c: ColumnSpec, v: ValueSpec) -> bool {
    match v {
        ValueSpec::Null => c.nullable,
        ValueSpec::Integer(_) => c.ty == ColumnType::Integer,
        ValueSpec::Long(_) => c.ty == ColumnType::Long,
        ValueSpec::Boolean(_) => c.ty == ColumnType::Boolean,
        ValueSpec::Text(_) => c.ty == ColumnType::String,
    }
}

/// The values satisfy the schema, column by column.
pub open spec fn row_fits(target: Seq<ColumnSpec>, values: Seq<ValueSpec>) -> bool {
    &&& values.len() == target.len()
    &&& forall|k: int| 0 <= k < target.len() ==> admits(#[trigger] target[k], values[k])
}

/// What a row laid out by `schema` holds for the column `c`: its value under that
/// name, or null where `schema` has no such column.
pub open spec fn cell(c: ColumnSpec, schema: Seq<ColumnSpec>, row: Seq<ValueSpec>) -> ValueSpec {
    if has_column(schema, c.name) {
        row[position(schema, c.name)]
    } else {
        ValueSpec::Null
    }
}

/// A row laid out by `schema`, laid out by `target` instead.
pub open spec fn project(
    target: Seq<ColumnSpec>,
    schema: Seq<ColumnSpec>,
    row: Seq<ValueSpec>,
) -> Seq<ValueSpec> {
    Seq::new(target.len(), |k: int| cell(target[k], schema, row))
}

/// What a batch is: its schema, and its rows in order.
pub struct BatchSpec {
    pub schema: Seq<ColumnSpec>,
    pub rows: Seq<Seq<ValueSpec>>,
}

/// The rows of the batch, in their order, each laid out by `target`.
pub open spec fn projected(target: Seq<ColumnSpec>, b: BatchSpec) -> Seq<Seq<ValueSpec>> {
    Seq::new(b.rows.len(), |r: int| project(target, b.schema, b.rows[r]))
}

/// Row `r` of the batch satisfies `target` once laid out by it.
pub open spec fn row_ok(target: Seq<ColumnSpec>, b: BatchSpec, r: int) -> bool {
    row_fits(target, project(target, b.schema, b.rows[r]))
}

/// Every row of the batch satisfies `target`.
pub open spec fn batch_fits(target: Seq<ColumnSpec>, b: BatchSpec) -> bool {
    forall|r: int| 0 <= r < b.rows.len() ==> #[trigger] row_ok(target, b, r)
}

/// Row `r` is the first row of the batch that does not satisfy `target`.
pub open spec fn is_first_bad_row(target: Seq<ColumnSpec>, b: BatchSpec, r: int) -> bool {
    &&& 0 <= r < b.rows.len()
    &&& !row_ok(target, b, r)
    &&& forall|k: int| 0 <= k < r ==> #[trigger] row_ok(target, b, k)
}

/// As many nulls as asked for.
pub open spec fn nulls(n: nat) -> Seq<ValueSpec> {
    Seq::new(n, |i: int| ValueSpec::Null)
}

/// In a schema of distinct names a column stands where its name is found.
pub proof fn lemma_position_unique(schema: Seq<ColumnSpec>, k: int)
    requires
        unique_names(schema),
        0 <= k < schema.len(),
    ensures
        has_column(schema, schema[k].name),
        position(schema, schema[k].name) == k,
{
}

/// A row laid out by the schema it has already stays as it is.
pub proof fn lemma_project_same(schema: Seq<ColumnSpec>, row: Seq<ValueSpec>)
    requires
        unique_names(schema),
        row.len() == schema.len(),
    ensures
        project(schema, schema, row) == row,
{
}

/// Schema evolution is not retroactive: a row written under a schema and read
/// under that schema with another merged into it has its values where they
/// were, and a null for each column that the merge added.
pub proof fn lemma_project_merged(old: Seq<ColumnSpec>, inc: Seq<ColumnSpec>, row: Seq<ValueSpec>)
    requires
        unique_names(old),
        row.len() == old.len(),
    ensures
        project(merged(old, inc), old, row) == row + nulls(additions(old, inc).len()),
{
}

/// Re-validation against a table that moved on is sound. A writer planned a write
/// against the schema `observed`, so that the target `target` grew from it, and
/// its rows satisfy `target`. Meanwhile the table's schema grew from `observed` to
/// `seen`. If `seen` admits `target`, the rows, read under the schema that the
/// commit then sets, satisfy that schema: no row has to be looked at again.
pub proof fn lemma_rows_survive_revalidation(
    observed: Seq<ColumnSpec>,
    seen: Seq<ColumnSpec>,
    target: Seq<ColumnSpec>,
    row: Seq<ValueSpec>,
)
    requires
        unique_names(seen),
        unique_names(target),
        grown(observed, seen),
        grown(observed, target),
        compatible(seen, target),
        row_fits(target, row),
    ensures
        row_fits(merged(seen, target), project(merged(seen, target), target, row)),
{
    let new = merged(seen, target);
    let read = project(new, target, row);
    assert forall|k: int| 0 <= k < new.len() implies admits(#[trigger] new[k], read[k]) by {
        let name = new[k].name;
        if k < seen.len() {
            assert(new[k] == seen[k]);
            if k < observed.len() {
                assert(seen[k] == observed[k]);
                assert(target[k] == observed[k]);
                lemma_position_unique(target, k);
                assert(admits(target[k], row[k]));
            } else if has_column(target, name) {
                let p = position(target, name);
                assert(0 <= p < target.len() && target[p].name == name);
                assert(admits(target[p], row[p]));
                assert(!conflict_with(seen, target[p]));
                assert(seen[k].ty == target[p].ty);
                assert(seen[k].nullable);
            } else {
                assert(seen[k].nullable);
            }
        } else {
            lemma_additions_origin(seen, target, k - seen.len());
            let m = choose|m: int|
                0 <= m < target.len() && additions(seen, target)[k - seen.len()] == widened(
                    #[trigger] target[m],
                );
            assert(new[k] == widened(target[m]));
            lemma_position_unique(target, m);
            assert(admits(target[m], row[m]));
        }
    }
}

impl Value {
    /// A copy of this value.
    pub fn duplicate(&self) -> (v: Value)
        ensures
            v@ == self@,
    {
        match self {
            Value::Null => Value::Null,
            Value::Integer(x) => Value::Integer(*x),
            Value::Long(x) => Value::Long(*x),
            Value::Boolean(x) => Value::Boolean(*x),
            Value::Text(s) => Value::Text(s.clone()),
        }
    }

    /// Whether the column accepts this value.
    pub fn fits(&self, c: &Column) -> (b: bool)
        ensures
            b == admits(c@, self@),
    {
        match self {
            Value::Null => c.nullable,
            Value::Integer(_) => c.ty == ColumnType::Integer,
            Value::Long(_) => c.ty == ColumnType::Long,
            Value::Boolean(_) => c.ty == ColumnType::Boolean,
            Value::Text(_) => c.ty == ColumnType::String,
        }
    }
}

/// A finite sequence of rows with the schema that lays them out: the value at
/// place `i` of a row belongs to column `i` of the schema.
#[derive(Debug)]
pub struct RowBatch {
    schema: Schema,
    rows: Vec<Vec<Value>>,
}

impl View for RowBatch {
    type V = BatchSpec;

    closed spec fn view(&self) -> BatchSpec {
        BatchSpec { schema: self.schema@, rows: rows_view(self.rows@) }
    }
}

impl RowBatch {
    /// What holds of every batch: each row has one value per column.
    #[verifier::type_invariant]
    pub open spec fn inv(self) -> bool {
        forall|r: int| 0 <= r < self@.rows.len() ==> (#[trigger] self@.rows[r]).len() == self@.schema.len()
    }

    /// The batch of `rows` laid out by `schema`, if every row has one value per
    /// column.
    pub fn new(schema: Schema, rows: Vec<Vec<Value>>) -> (r: Option<RowBatch>)
        ensures
            match r {
                Some(b) => b@.schema == schema@ && b@.rows == rows_view(rows@) && forall|i: int|
                    0 <= i < rows.len() ==> (#[trigger] rows[i]).len() == schema@.len(),
                None => exists|i: int|
                    0 <= i < rows.len() && (#[trigger] rows[i]).len() != schema@.len(),
            },
    {
        let width = schema.len();
        let n = rows.len();
        let mut i: usize = 0;
        while i < n
            invariant
                i <= n == rows.len(),
                width == schema@.len(),
                forall|k: int| 0 <= k < i ==> (#[trigger] rows[k]).len() == width,
            decreases n - i,
        {
            if rows[i].len() != width {
                return None;
            }
            i += 1;
        }
        Some(RowBatch { schema, rows })
    }

    /// The schema that lays the rows out.
    pub fn schema(&self) -> (s: &Schema)
        ensures
            s@ == self@.schema,
    {
        &self.schema
    }

    /// The rows, in their order.
    pub fn rows(&self) -> (r: &Vec<Vec<Value>>)
        ensures
            rows_view(r@) == self@.rows,
    {
        &self.rows
    }

    /// The number of rows.
    pub fn row_count(&self) -> (n: usize)
        ensures
            n == self@.rows.len(),
    {
        self.rows.len()
    }

    /// The rows laid out by `target`, in their order, if each of them satisfies
    /// `target`; else the place of the first row that does not.
    pub fn project_onto(&self, target: &Schema) -> (r: Result<Vec<Vec<Value>>, usize>)
        ensures
            match r {
                Ok(rows) => batch_fits(target@, self@) && rows_view(rows@) == projected(
                    target@,
                    self@,
                ),
                Err(bad) => is_first_bad_row(target@, self@, bad as int),
            },
    {
        proof {
            use_type_invariant(self);
        }
        let width = target.len();
        let mut places: Vec<Option<usize>> = Vec::new();
        let mut k: usize = 0;
        while k < width
            invariant
                k <= width == target@.len(),
                places.len() == k,
                forall|m: int|
                    0 <= m < k ==> match #[trigger] places[m] {
                        Some(p) => has_column(self@.schema, target@[m].name) && p == position(
                            self@.schema,
                            target@[m].name,
                        ) && p < self@.schema.len(),
                        None => !has_column(self@.schema, target@[m].name),
                    },
            decreases width - k,
        {
            let place = self.schema.position_of(target.column(k).name.as_str());
            places.push(place);
            k += 1;
        }
        let n = self.rows.len();
        let mut out: Vec<Vec<Value>> = Vec::new();
        let mut r: usize = 0;
        while r < n
            invariant
                r <= n == self.rows.len(),
                self@.rows == rows_view(self.rows@),
                forall|i: int|
                    0 <= i < self@.rows.len() ==> (#[trigger] self@.rows[i]).len()
                        == self@.schema.len(),
                width == target@.len(),
                places.len() == width,
                forall|m: int|
                    0 <= m < width ==> match #[trigger] places[m] {
                        Some(p) => has_column(self@.schema, target@[m].name) && p == position(
                            self@.schema,
                            target@[m].name,
                        ) && p < self@.schema.len(),
                        None => !has_column(self@.schema, target@[m].name),
                    },
                out.len() == r,
                forall|i: int|
                    0 <= i < r ==> row_view((#[trigger] out[i])@) == project(
                        target@,
                        self@.schema,
                        self@.rows[i],
                    ),
                forall|i: int| 0 <= i < r ==> #[trigger] row_ok(target@, self@, i),
            decreases n - r,
        {
            let row = &self.rows[r];
            let mut laid: Vec<Value> = Vec::new();
            let mut fits = true;
            let mut c: usize = 0;
            while c < width
                invariant
                    c <= width == target@.len(),
                    places.len() == width,
                    row.len() == self@.schema.len(),
                    self@.rows[r as int] == row_view(row@),
                    forall|m: int|
                        0 <= m < width ==> match #[trigger] places[m] {
                            Some(p) => has_column(self@.schema, target@[m].name) && p == position(
                                self@.schema,
                                target@[m].name,
                            ) && p < self@.schema.len(),
                            None => !has_column(self@.schema, target@[m].name),
                        },
                    laid.len() == c,
                    forall|m: int|
                        0 <= m < c ==> (#[trigger] laid[m])@ == cell(
                            target@[m],
                            self@.schema,
                            self@.rows[r as int],
                        ),
                    fits <==> forall|m: int|
                        0 <= m < c ==> admits(#[trigger] target@[m], laid[m]@),
                decreases width - c,
            {
                let v = match places[c] {
                    Some(p) => row[p].duplicate(),
                    None => Value::Null,
                };
                if !v.fits(target.column(c)) {
                    fits = false;
                }
                laid.push(v);
                c += 1;
            }
            if !fits {
                return Err(r);
            }
            out.push(laid);
            r += 1;
        }
        Ok(out)
    }
}

} // verus!
