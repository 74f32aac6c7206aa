//! Column sets: declaration and the merge that schema evolution rests on.

use crate::error::TableError;
use vstd::prelude::*;

verus! {
/// The primitive type of a column.
#[derive(Clone, Copy, Debug, PartialEq, Eq, Structural)]
pub enum ColumnType {
    Integer,
    Long,
    Boolean,
    String,
}

/// One column of a schema.
#[derive(Debug, PartialEq, Eq)]
pub struct Column {
    pub name: String,
    pub ty: ColumnType,
    pub nullable: bool,
}

/// What a column is, with its name as a sequence of characters.
pub struct ColumnSpec {
    pub name: Seq<char>,
    pub ty: ColumnType,
    pub nullable: bool,
}

impl View for Column {
    type V = ColumnSpec;

    open spec fn view(&self) -> ColumnSpec {
        ColumnSpec { name: self.name@, ty: self.ty, nullable: self.nullable }
    }
}

impl Column {
    /// A column with the given name, type and nullability.
    pub fn new(name: &str, ty: ColumnType, nullable: bool) -> (c: Column)
        ensures
            c@ == (ColumnSpec { name: name@, ty, nullable }),
    {
        Column { name: name.to_owned(), ty, nullable }
    }

    /// A copy of this column.
    pub fn duplicate(&self) -> (c: Column)
        ensures
            c@ == self@,
    {
        Column { name: self.name.clone(), ty: self.ty, nullable: self.nullable }
    }
}

/// The columns of `v`, each by its view.
pub open spec fn columns_view(v: Seq<Column>) -> Seq<ColumnSpec> {
    Seq::new(v.len(), |i: int| v[i]@)
}

/// No two columns of `s` share a name.
pub open spec fn unique_names(s: Seq<ColumnSpec>) -> bool {
    forall|i: int, j: int| 0 <= i < j < s.len() ==> s[i].name != s[j].name
}

/// Some column of `s` is called `name`.
pub open spec fn has_column(s: Seq<ColumnSpec>, name: Seq<char>) -> bool {
    exists|i: int| 0 <= i < s.len() && #[trigger] s[i].name == name
}

/// Where the column called `name` stands in `s`; meaningful where `has_column` holds.
pub open spec fn position(s: Seq<ColumnSpec>, name: Seq<char>) -> int {
    choose|i: int| 0 <= i < s.len() && (#[trigger] s[i]).name == name
}

/// `c` carries the name of a column of `cur` whose type differs from that of `c`.
pub open spec fn conflict_with(cur: Seq<ColumnSpec>, c: ColumnSpec) -> bool {
    exists|i: int| 0 <= i < cur.len() && (#[trigger] cur[i]).name == c.name && cur[i].ty != c.ty
}

/// No column of `inc` conflicts with `cur`.
pub open spec fn compatible(cur: Seq<ColumnSpec>, inc: Seq<ColumnSpec>) -> bool {
    forall|j: int| 0 <= j < inc.len() ==> !conflict_with(cur, #[trigger] inc[j])
}

/// `inc[j]` is the first column of `inc` that conflicts with `cur`.
pub open spec fn is_first_conflict(cur: Seq<ColumnSpec>, inc: Seq<ColumnSpec>, j: int) -> bool {
    &&& 0 <= j < inc.len()
    &&& conflict_with(cur, inc[j])
    &&& forall|k: int| 0 <= k < j ==> !conflict_with(cur, #[trigger] inc[k])
}

/// `c`, made nullable.
pub open spec fn widened(c: ColumnSpec) -> ColumnSpec {
    ColumnSpec { name: c.name, ty: c.ty, nullable: true }
}

/// The test that picks the columns `cur` does not have yet.
pub open spec fn is_new_in(cur: Seq<ColumnSpec>) -> spec_fn(ColumnSpec) -> bool {
    |c: ColumnSpec| !has_column(cur, c.name)
}

/// The function that makes a column nullable.
pub open spec fn widen() -> spec_fn(ColumnSpec) -> ColumnSpec {
    |c: ColumnSpec| widened(c)
}

/// The columns of `inc` that `cur` lacks, in the order of `inc`, each made nullable.
pub open spec fn additions(cur: Seq<ColumnSpec>, inc: Seq<ColumnSpec>) -> Seq<ColumnSpec> {
    inc.filter(is_new_in(cur)).map_values(widen())
}

/// The schema a write of `inc` into a table of schema `cur` targets: the columns of
/// `cur` unchanged, followed by the additions.
pub open spec fn merged(cur: Seq<ColumnSpec>, inc: Seq<ColumnSpec>) -> Seq<ColumnSpec> {
    cur + additions(cur, inc)
}

/// `new` is `old` with nullable columns added behind: what merges make of a
/// schema, however many of them.
pub open spec fn grown(old: Seq<ColumnSpec>, new: Seq<ColumnSpec>) -> bool {
    &&& old.len() <= new.len()
    &&& forall|i: int| 0 <= i < old.len() ==> #[trigger] new[i] == old[i]
    &&& forall|i: int| old.len() <= i < new.len() ==> (#[trigger] new[i]).nullable
}

/// An ordered set of columns with pairwise distinct names.
#[derive(Debug)]
pub struct Schema {
    columns: Vec<Column>,
}

impl View for Schema {
    type V = Seq<ColumnSpec>;

    closed spec fn view(&self) -> Seq<ColumnSpec> {
        columns_view(self.columns@)
    }
}

/// The first of the leading `upto` columns of `cols` that is called `name`.
fn find_name(cols: &Vec<Column>, upto: usize, name: &String) -> (r: Option<usize>)
    requires
        upto <= cols.len(),
    ensures
        match r {
            Some(k) => k < upto && cols[k as int].name@ == name@,
            None => forall|k: int| 0 <= k < upto ==> (#[trigger] cols[k]).name@ != name@,
        },
{
    let mut k: usize = 0;
    while k < upto
        invariant
            k <= upto <= cols.len(),
            forall|m: int| 0 <= m < k ==> (#[trigger] cols[m]).name@ != name@,
        decreases upto - k,
    {
        if cols[k].name == *name {
            return Some(k);
        }
        k += 1;
    }
    None
}

impl Schema {
    /// What holds of every schema: no two columns share a name.
    #[verifier::type_invariant]
    pub open spec fn inv(self) -> bool {
        unique_names(self@)
    }

    /// The schema without columns.
    pub fn empty() -> (s: Schema)
        ensures
            s@ == Seq::<ColumnSpec>::empty(),
    {
        Schema { columns: Vec::new() }
    }

    /// Declares the schema of a new table from its columns, in their order. A name
    /// that occurs twice is refused, and reported at its second occurrence.
    pub fn declare(columns: Vec<Column>) -> (r: Result<Schema, TableError>)
        ensures
            match r {
                Ok(s) => unique_names(columns_view(columns@)) && s@ == columns_view(columns@),
                Err(TableError::DuplicateColumn { column }) => !unique_names(
                    columns_view(columns@),
                ) && exists|i: int, j: int|
                    0 <= i < j < columns.len() && (#[trigger] columns[i]).name@ == column@
                        && (#[trigger] columns[j]).name@ == column@,
                Err(_) => false,
            },
    {
        let n = columns.len();
        let mut j: usize = 0;
        while j < n
            invariant
                j <= n == columns.len(),
                unique_names(columns_view(columns@).take(j as int)),
            decreases n - j,
        {
            match find_name(&columns, j, &columns[j].name) {
                Some(i) => {
                    let column = columns[j].name.clone();
                    proof {
                        let v = columns_view(columns@);
                        assert(v[i as int].name == v[j as int].name);
                    }
                    return Err(TableError::DuplicateColumn { column });
                },
                None => {},
            }
            j += 1;
        }
        proof {
            let v = columns_view(columns@);
            assert(v.take(n as int) =~= v);
        }
        Ok(Schema { columns })
    }

    /// The number of columns.
    pub fn len(&self) -> (n: usize)
        ensures
            n == self@.len(),
    {
        self.columns.len()
    }

    /// The column at position `i`.
    pub fn column(&self, i: usize) -> (c: &Column)
        requires
            i < self@.len(),
        ensures
            c@ == self@[i as int],
    {
        &self.columns[i]
    }

    /// Where the column called `name` stands, if there is one.
    pub fn position_of(&self, name: &str) -> (r: Option<usize>)
        ensures
            r is Some <==> has_column(self@, name@),
            r matches Some(i) ==> i < self@.len() && self@[i as int].name == name@ && i
                == position(self@, name@),
    {
        let key = name.to_owned();
        let r = find_name(&self.columns, self.columns.len(), &key);
        proof {
            use_type_invariant(self);
            match r {
                Some(i) => {
                    assert(self@[i as int].name == name@);
                    let p = position(self@, name@);
                    assert(0 <= p < self@.len() && self@[p].name == name@);
                    if p != i {
                        if p < i {
                            assert(self@[p].name != self@[i as int].name);
                        } else {
                            assert(self@[i as int].name != self@[p].name);
                        }
                    }
                },
                None => {
                    assert forall|k: int| 0 <= k < self@.len() implies (#[trigger] self@[k]).name
                        != name@ by {
                        assert(self.columns[k].name@ != name@);
                    }
                },
            }
        }
        r
    }

    /// A copy of this schema.
    pub fn duplicate(&self) -> (s: Schema)
        ensures
            s@ == self@,
    {
        let mut out: Vec<Column> = Vec::new();
        let n = self.columns.len();
        let mut i: usize = 0;
        while i < n
            invariant
                i <= n == self.columns.len(),
                out.len() == i,
                forall|k: int| 0 <= k < i ==> (#[trigger] out[k])@ == self.columns[k]@,
            decreases n - i,
        {
            out.push(self.columns[i].duplicate());
            i += 1;
        }
        proof {
            use_type_invariant(self);
            assert(columns_view(out@) =~= columns_view(self.columns@));
        }
        Schema { columns: out }
    }

    /// Whether both schemas hold the same columns in the same order.
    pub fn same_as(&self, other: &Schema) -> (b: bool)
        ensures
            b == (self@ == other@),
    {
        let n = self.columns.len();
        if n != other.columns.len() {
            assert(self@.len() != other@.len());
            return false;
        }
        let mut i: usize = 0;
        while i < n
            invariant
                i <= n == self.columns.len() == other.columns.len(),
                forall|k: int| 0 <= k < i ==> (#[trigger] self.columns[k])@ == other.columns[k]@,
            decreases n - i,
        {
            let a = &self.columns[i];
            let b = &other.columns[i];
            if !(a.name == b.name && a.ty == b.ty && a.nullable == b.nullable) {
                assert(self@[i as int] != other@[i as int]);
                return false;
            }
            i += 1;
        }
        assert(self@ =~= other@);
        true
    }

    /// The schema that a write of `incoming` into a table of this schema targets.
    ///
    /// Columns of both keep this schema's definition and must have the same type in
    /// `incoming`; the first incoming column of another type is reported as a
    /// conflict. Columns only `incoming` has are added behind, nullable.
    pub fn merge(&self, incoming: &Schema) -> (r: Result<Schema, TableError>)
        ensures
            match r {
                Ok(s) => compatible(self@, incoming@) && s@ == merged(self@, incoming@),
                Err(TableError::SchemaConflict { column }) => exists|j: int|
                    is_first_conflict(self@, incoming@, j) && (#[trigger] incoming@[j]).name
                        == column@,
                Err(_) => false,
            },
    {
        let mut out = self.duplicate();
        let n = incoming.columns.len();
        let mut j: usize = 0;
        proof {
            use_type_invariant(self);
            use_type_invariant(incoming);
        }
        while j < n
            invariant
                j <= n == incoming.columns.len(),
                incoming@ == columns_view(incoming.columns@),
                unique_names(self@),
                unique_names(incoming@),
                out@ == merged(self@, incoming@.take(j as int)),
                compatible(self@, incoming@.take(j as int)),
            decreases n - j,
        {
            let c = &incoming.columns[j];
            proof {
                lemma_additions_step(self@, incoming@, j as int);
            }
            match self.position_of(c.name.as_str()) {
                Some(i) => {
                    if self.columns[i].ty != c.ty {
                        let column = c.name.clone();
                        proof {
                            assert forall|k: int| 0 <= k < j implies !conflict_with(
                                self@,
                                #[trigger] incoming@[k],
                            ) by {
                                assert(incoming@.take(j as int)[k] == incoming@[k]);
                            }
                        }
                        return Err(TableError::SchemaConflict { column });
                    }
                },
                None => {
                    proof {
                        lemma_merged_unique(self@, incoming@.take(j + 1));
                    }
                    out = out.with(Column { name: c.name.clone(), ty: c.ty, nullable: true });
                },
            }
            j += 1;
        }
        proof {
            assert(incoming@.take(n as int) =~= incoming@);
        }
        Ok(out)
    }

    /// This schema with `c` behind its columns.
    fn with(self, c: Column) -> (s: Schema)
        requires
            unique_names(self@.push(c@)),
        ensures
            s@ == self@.push(c@),
    {
        let mut columns = self.columns;
        columns.push(c);
        proof {
            assert(columns_view(columns@) =~= columns_view(self.columns@).push(c@));
        }
        Schema { columns }
    }
}

/// Nothing is added where nothing comes in.
proof fn lemma_additions_empty(cur: Seq<ColumnSpec>)
    ensures
        additions(cur, Seq::<ColumnSpec>::empty()) == Seq::<ColumnSpec>::empty(),
{
}

/// How the additions grow with one more incoming column.
proof fn lemma_additions_step(cur: Seq<ColumnSpec>, inc: Seq<ColumnSpec>, j: int)
    requires
        0 <= j < inc.len(),
    ensures
        additions(cur, inc.take(j + 1)) == if has_column(cur, inc[j].name) {
            additions(cur, inc.take(j))
        } else {
            additions(cur, inc.take(j)).push(widened(inc[j]))
        },
        merged(cur, inc.take(j + 1)) == if has_column(cur, inc[j].name) {
            merged(cur, inc.take(j))
        } else {
            merged(cur, inc.take(j)).push(widened(inc[j]))
        },
{
    let head = inc.take(j);
    assert(inc.take(j + 1) =~= head.push(inc[j]));
    head.lemma_filter_push(inc[j], is_new_in(cur));
}

/// Every addition is an incoming column that the current schema lacks, made nullable.
pub proof fn lemma_additions_origin(cur: Seq<ColumnSpec>, inc: Seq<ColumnSpec>, k: int)
    requires
        0 <= k < additions(cur, inc).len(),
    ensures
        !has_column(cur, additions(cur, inc)[k].name),
        exists|m: int| 0 <= m < inc.len() && additions(cur, inc)[k] == widened(#[trigger] inc[m]),
{
    let kept = inc.filter(is_new_in(cur));
    inc.lemma_filter_contains_rev(is_new_in(cur), kept[k]);
}

/// Every incoming column that the current schema lacks is among the additions.
pub proof fn lemma_additions_cover(cur: Seq<ColumnSpec>, inc: Seq<ColumnSpec>, m: int)
    requires
        0 <= m < inc.len(),
        !has_column(cur, inc[m].name),
    ensures
        exists|k: int|
            0 <= k < additions(cur, inc).len() && #[trigger] additions(cur, inc)[k] == widened(
                inc[m],
            ),
{
    let kept = inc.filter(is_new_in(cur));
    inc.lemma_filter_contains(is_new_in(cur), m);
    let k = choose|k: int| 0 <= k < kept.len() && kept[k] == inc[m];
    assert(additions(cur, inc)[k] == widened(inc[m]));
}

/// Merging two schemas of distinct names gives a schema of distinct names.
pub proof fn lemma_merged_unique(cur: Seq<ColumnSpec>, inc: Seq<ColumnSpec>)
    requires
        unique_names(cur),
        unique_names(inc),
    ensures
        unique_names(merged(cur, inc)),
    decreases inc.len(),
{
    if inc.len() == 0 {
        lemma_additions_empty(cur);
        assert(inc =~= Seq::<ColumnSpec>::empty());
        assert(merged(cur, inc) =~= cur);
    } else {
        let j = inc.len() - 1;
        let head = inc.take(j);
        assert(inc.take(j + 1) =~= inc);
        lemma_additions_step(cur, inc, j);
        assert forall|a: int, b: int| 0 <= a < b < head.len() implies head[a].name
            != head[b].name by {
            assert(inc[a].name != inc[b].name);
        }
        lemma_merged_unique(cur, head);
        if !has_column(cur, inc[j].name) {
            let m = merged(cur, head);
            let last = widened(inc[j]);
            assert forall|a: int, b: int| 0 <= a < b < m.len() + 1 implies m.push(last)[a].name
                != m.push(last)[b].name by {
                if b == m.len() {
                    if a < cur.len() {
                        assert(m[a] == cur[a]);
                    } else {
                        lemma_additions_origin(cur, head, a - cur.len());
                        let w = choose|w: int|
                            0 <= w < head.len() && additions(cur, head)[a - cur.len()] == widened(
                                #[trigger] head[w],
                            );
                        assert(inc[w].name != inc[j].name);
                    }
                } else {
                    assert(m[a].name != m[b].name);
                }
            }
        }
    }
}

/// A column is in the merged schema exactly if it is in one of the two merged.
pub proof fn lemma_merged_names(cur: Seq<ColumnSpec>, inc: Seq<ColumnSpec>, name: Seq<char>)
    ensures
        has_column(merged(cur, inc), name) <==> has_column(cur, name) || has_column(inc, name),
{
    let m = merged(cur, inc);
    let add = additions(cur, inc);
    if has_column(m, name) {
        let i = choose|i: int| 0 <= i < m.len() && (#[trigger] m[i]).name == name;
        if i < cur.len() {
            assert(cur[i].name == name);
        } else {
            lemma_additions_origin(cur, inc, i - cur.len());
            let w = choose|w: int|
                0 <= w < inc.len() && add[i - cur.len()] == widened(#[trigger] inc[w]);
            assert(inc[w].name == name);
        }
    }
    if has_column(cur, name) {
        let i = choose|i: int| 0 <= i < cur.len() && (#[trigger] cur[i]).name == name;
        assert(m[i].name == name);
    } else if has_column(inc, name) {
        let w = choose|w: int| 0 <= w < inc.len() && (#[trigger] inc[w]).name == name;
        lemma_additions_cover(cur, inc, w);
        let k = choose|k: int| 0 <= k < add.len() && #[trigger] add[k] == widened(inc[w]);
        assert(m[cur.len() + k].name == name);
    }
}

/// Merging a schema with itself changes nothing.
pub proof fn lemma_merge_self(a: Seq<ColumnSpec>)
    requires
        unique_names(a),
    ensures
        compatible(a, a),
        merged(a, a) == a,
{
    lemma_nothing_new(a, a);
}

/// Where the current schema has every column that comes in, nothing is added.
proof fn lemma_nothing_new(cur: Seq<ColumnSpec>, inc: Seq<ColumnSpec>)
    requires
        forall|j: int| 0 <= j < inc.len() ==> has_column(cur, (#[trigger] inc[j]).name),
    ensures
        merged(cur, inc) == cur,
{
    let keep = is_new_in(cur);
    inc.lemma_all_neg_filter_empty(keep);
}

/// Merging the same incoming schema a second time changes nothing: the result of
/// the first merge is compatible with it and already holds all its columns.
pub proof fn lemma_merge_again(a: Seq<ColumnSpec>, b: Seq<ColumnSpec>)
    requires
        unique_names(a),
        unique_names(b),
        compatible(a, b),
    ensures
        compatible(merged(a, b), b),
        merged(merged(a, b), b) == merged(a, b),
{
    let m = merged(a, b);
    let add = additions(a, b);
    assert forall|j: int| 0 <= j < b.len() implies !conflict_with(m, #[trigger] b[j]) by {
        if conflict_with(m, b[j]) {
            let i = choose|i: int|
                0 <= i < m.len() && (#[trigger] m[i]).name == b[j].name && m[i].ty != b[j].ty;
            if i < a.len() {
                assert(a[i].name == b[j].name && a[i].ty != b[j].ty);
                assert(conflict_with(a, b[j]));
            } else {
                lemma_additions_origin(a, b, i - a.len());
                let w = choose|w: int|
                    0 <= w < b.len() && add[i - a.len()] == widened(#[trigger] b[w]);
                if w < j {
                    assert(b[w].name != b[j].name);
                } else if j < w {
                    assert(b[j].name != b[w].name);
                }
            }
        }
    }
    assert forall|j: int| 0 <= j < b.len() implies has_column(m, (#[trigger] b[j]).name) by {
        lemma_merged_names(a, b, b[j].name);
    }
    lemma_nothing_new(m, b);
}

/// A merge grows the current schema: its columns stay as they are, and what is
/// added is nullable.
pub proof fn lemma_merge_grows(cur: Seq<ColumnSpec>, inc: Seq<ColumnSpec>)
    ensures
        grown(cur, merged(cur, inc)),
{
}

/// What has grown twice has grown.
pub proof fn lemma_grown_twice(a: Seq<ColumnSpec>, b: Seq<ColumnSpec>, c: Seq<ColumnSpec>)
    requires
        grown(a, b),
        grown(b, c),
    ensures
        grown(a, c),
{
}

} // verus!
