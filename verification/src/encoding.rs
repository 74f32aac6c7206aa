//! The byte format of a data file: the layout of its rows, then the rows in their
//! order, every value with its type and nulls told apart from values.
//!
//! ```text
//! file   := schema, count rows
//! schema := count columns
//! column := text, type tag, nullable flag
//! row    := one value per column
//! value  := 0 | 1 integer | 2 long | 3 boolean | 4 text
//! text   := length in bytes, UTF-8
//! ```
//! Counts, lengths and numbers are 8 bytes, little-endian; signed numbers are
//! shifted to be non-negative. A file is written once and never changed.

use crate::rows::{row_view, rows_view, RowBatch, Value, ValueSpec};
use crate::schema::{columns_view, unique_names, Column, ColumnSpec, ColumnType, Schema};
use vstd::bytes::{
    lemma_auto_spec_u64_to_from_le_bytes, spec_u64_from_le_bytes, spec_u64_to_le_bytes,
    u64_from_le_bytes, u64_to_le_bytes,
};
use vstd::prelude::*;
use vstd::slice::{slice_subrange, slice_to_vec};
use vstd::string::StrSliceExecFns;
use vstd::utf8::{
    decode_utf8, encode_utf8, encode_utf8_decode_utf8, encode_utf8_valid_utf8, valid_utf8,
};

verus! {
/// The eight bytes of a count, a length or a shifted number.
pub open spec fn u64_bytes(x: u64) -> Seq<u8> {
    spec_u64_to_le_bytes(x)
}

/// The bytes of a text: its length in bytes, then its UTF-8 encoding.
pub open spec fn text_bytes(t: Seq<char>) -> Seq<u8> {
    u64_bytes(encode_utf8(t).len() as u64) + encode_utf8(t)
}

/// The byte that stands for a column type.
pub open spec fn type_tag(ty: ColumnType) -> u8 {
    match ty {
        ColumnType::Integer => 1,
        ColumnType::Long => 2,
        ColumnType::Boolean => 3,
        ColumnType::String => 4,
    }
}

/// The byte that stands for a truth value.
pub open spec fn flag(b: bool) -> u8 {
    if b {
        1
    } else {
        0
    }
}

/// A 32-bit number, shifted to be non-negative.
pub open spec fn shifted_i32(x: i32) -> u64 {
    (x + 0x8000_0000) as u64
}

/// A 64-bit number, shifted to be non-negative.
pub open spec fn shifted_i64(x: i64) -> u64 {
    (x + 0x8000_0000_0000_0000) as u64
}

/// The bytes of one column of a schema.
pub open spec fn column_bytes(c: ColumnSpec) -> Seq<u8> {
    text_bytes(c.name) + seq![type_tag(c.ty), flag(c.nullable)]
}

/// The bytes of one value.
pub open spec fn value_bytes(v: ValueSpec) -> Seq<u8> {
    match v {
        ValueSpec::Null => seq![0u8],
        ValueSpec::Integer(x) => seq![1u8] + u64_bytes(shifted_i32(x)),
        ValueSpec::Long(x) => seq![2u8] + u64_bytes(shifted_i64(x)),
        ValueSpec::Boolean(b) => seq![3u8, flag(b)],
        ValueSpec::Text(t) => seq![4u8] + text_bytes(t),
    }
}

/// The function that gives a column its bytes.
pub open spec fn column_encoder() -> spec_fn(ColumnSpec) -> Seq<u8> {
    |c: ColumnSpec| column_bytes(c)
}

/// The function that gives a value its bytes.
pub open spec fn value_encoder() -> spec_fn(ValueSpec) -> Seq<u8> {
    |v: ValueSpec| value_bytes(v)
}

/// The function that gives a row its bytes.
pub open spec fn row_encoder() -> spec_fn(Seq<ValueSpec>) -> Seq<u8> {
    |r: Seq<ValueSpec>| row_bytes(r)
}

/// The bytes of each item, one after the other.
pub open spec fn each<T>(items: Seq<T>, encoder: spec_fn(T) -> Seq<u8>) -> Seq<u8> {
    items.map_values(encoder).flatten()
}

/// The bytes of a schema: the number of its columns, then the columns in order.
pub open spec fn schema_bytes(s: Seq<ColumnSpec>) -> Seq<u8> {
    u64_bytes(s.len() as u64) + each(s, column_encoder())
}

/// The bytes of one row: its values in their order.
pub open spec fn row_bytes(r: Seq<ValueSpec>) -> Seq<u8> {
    each(r, value_encoder())
}

/// The bytes of a data file that holds `rows`, laid out by `layout`.
pub open spec fn file_bytes(layout: Seq<ColumnSpec>, rows: Seq<Seq<ValueSpec>>) -> Seq<u8> {
    schema_bytes(layout) + u64_bytes(rows.len() as u64) + each(rows, row_encoder())
}

/// What reading one item off the front of some bytes gives: the item and the bytes
/// behind it, or nothing where the bytes do not start with such an item.
pub type Parsed<T> = Option<(T, Seq<u8>)>;

/// Reads a count, a length or a shifted number.
pub open spec fn parse_u64(s: Seq<u8>) -> Parsed<u64> {
    if s.len() >= 8 {
        Some((spec_u64_from_le_bytes(s.take(8)), s.skip(8)))
    } else {
        None
    }
}

/// Reads one byte.
pub open spec fn parse_byte(s: Seq<u8>) -> Parsed<u8> {
    if s.len() >= 1 {
        Some((s[0], s.skip(1)))
    } else {
        None
    }
}

/// Reads a text: its length, then that many bytes of valid UTF-8.
pub open spec fn parse_text(s: Seq<u8>) -> Parsed<Seq<char>> {
    match parse_u64(s) {
        Some((n, rest)) => if n <= rest.len() && valid_utf8(rest.take(n as int)) {
            Some((decode_utf8(rest.take(n as int)), rest.skip(n as int)))
        } else {
            None
        },
        None => None,
    }
}

/// The column type a byte stands for.
pub open spec fn type_of_tag(b: u8) -> Option<ColumnType> {
    if b == 1 {
        Some(ColumnType::Integer)
    } else if b == 2 {
        Some(ColumnType::Long)
    } else if b == 3 {
        Some(ColumnType::Boolean)
    } else if b == 4 {
        Some(ColumnType::String)
    } else {
        None
    }
}

/// The truth value a byte stands for.
pub open spec fn truth_of_flag(b: u8) -> Option<bool> {
    if b == 0 {
        Some(false)
    } else if b == 1 {
        Some(true)
    } else {
        None
    }
}

/// The 32-bit number that was shifted to `u`.
pub open spec fn unshifted_i32(u: u64) -> Option<i32> {
    if u <= 0xffff_ffff {
        Some((u - 0x8000_0000) as i32)
    } else {
        None
    }
}

/// The 64-bit number that was shifted to `u`.
pub open spec fn unshifted_i64(u: u64) -> i64 {
    (u - 0x8000_0000_0000_0000) as i64
}

/// Reads one column of a schema.
pub open spec fn parse_column(s: Seq<u8>) -> Parsed<ColumnSpec> {
    match parse_text(s) {
        Some((name, s1)) => match parse_byte(s1) {
            Some((tag, s2)) => match parse_byte(s2) {
                Some((nullable, s3)) => match (type_of_tag(tag), truth_of_flag(nullable)) {
                    (Some(ty), Some(nullable)) => Some((ColumnSpec { name, ty, nullable }, s3)),
                    _ => None,
                },
                None => None,
            },
            None => None,
        },
        None => None,
    }
}

/// Reads one value.
pub open spec fn parse_value(s: Seq<u8>) -> Parsed<ValueSpec> {
    match parse_byte(s) {
        Some((tag, s1)) => if tag == 0 {
            Some((ValueSpec::Null, s1))
        } else if tag == 1 {
            match parse_u64(s1) {
                Some((u, s2)) => match unshifted_i32(u) {
                    Some(x) => Some((ValueSpec::Integer(x), s2)),
                    None => None,
                },
                None => None,
            }
        } else if tag == 2 {
            match parse_u64(s1) {
                Some((u, s2)) => Some((ValueSpec::Long(unshifted_i64(u)), s2)),
                None => None,
            }
        } else if tag == 3 {
            match parse_byte(s1) {
                Some((b, s2)) => match truth_of_flag(b) {
                    Some(t) => Some((ValueSpec::Boolean(t), s2)),
                    None => None,
                },
                None => None,
            }
        } else if tag == 4 {
            match parse_text(s1) {
                Some((t, s2)) => Some((ValueSpec::Text(t), s2)),
                None => None,
            }
        } else {
            None
        },
        None => None,
    }
}

/// `first` put before the items that were read after it.
pub open spec fn after<T>(first: Seq<T>, more: Parsed<Seq<T>>) -> Parsed<Seq<T>> {
    match more {
        Some((items, rest)) => Some((first + items, rest)),
        None => None,
    }
}

/// Reads `count` items, one after the other.
pub open spec fn parse_many<T>(s: Seq<u8>, count: nat, one: spec_fn(Seq<u8>) -> Parsed<T>) -> Parsed<
    Seq<T>,
>
    decreases count,
{
    if count == 0 {
        Some((Seq::empty(), s))
    } else {
        match one(s) {
            Some((item, rest)) => after(seq![item], parse_many(rest, (count - 1) as nat, one)),
            None => None,
        }
    }
}

/// The function that reads a column.
pub open spec fn column_parser() -> spec_fn(Seq<u8>) -> Parsed<ColumnSpec> {
    |s: Seq<u8>| parse_column(s)
}

/// The function that reads a value.
pub open spec fn value_parser() -> spec_fn(Seq<u8>) -> Parsed<ValueSpec> {
    |s: Seq<u8>| parse_value(s)
}

/// The function that reads a row of `width` values.
pub open spec fn row_parser(width: nat) -> spec_fn(Seq<u8>) -> Parsed<Seq<ValueSpec>> {
    |s: Seq<u8>| parse_many(s, width, value_parser())
}

/// Reads a schema: the number of its columns, then that many columns.
pub open spec fn parse_schema(s: Seq<u8>) -> Parsed<Seq<ColumnSpec>> {
    match parse_u64(s) {
        Some((width, rest)) => parse_many(rest, width as nat, column_parser()),
        None => None,
    }
}

/// Reads a whole data file: the layout and the rows, with nothing left over.
pub open spec fn parse_file(s: Seq<u8>) -> Option<(Seq<ColumnSpec>, Seq<Seq<ValueSpec>>)> {
    match parse_schema(s) {
        Some((layout, s1)) => match parse_u64(s1) {
            Some((count, s2)) => match parse_many(s2, count as nat, row_parser(layout.len())) {
                Some((rows, s3)) => if s3.len() == 0 {
                    Some((layout, rows))
                } else {
                    None
                },
                None => None,
            },
            None => None,
        },
        None => None,
    }
}

/// The text takes no more bytes than a length can say.
pub open spec fn text_storable(t: Seq<char>) -> bool {
    encode_utf8(t).len() <= u64::MAX
}

/// A text in the value takes no more bytes than a length can say.
pub open spec fn value_storable(v: ValueSpec) -> bool {
    v matches ValueSpec::Text(t) ==> text_storable(t)
}

/// The schema has no more columns than a count can say, and no name is longer
/// than a length can say.
pub open spec fn schema_storable(s: Seq<ColumnSpec>) -> bool {
    &&& s.len() <= u64::MAX
    &&& forall|c: int| 0 <= c < s.len() ==> text_storable((#[trigger] s[c]).name)
}

/// The layout and the rows can be stored: every row has one value per column, and
/// no count and no text is beyond what eight bytes can say.
pub open spec fn storable(layout: Seq<ColumnSpec>, rows: Seq<Seq<ValueSpec>>) -> bool {
    &&& schema_storable(layout)
    &&& rows.len() <= u64::MAX
    &&& forall|r: int| 0 <= r < rows.len() ==> (#[trigger] rows[r]).len() == layout.len()
    &&& forall|r: int, c: int|
        0 <= r < rows.len() && 0 <= c < rows[r].len() ==> value_storable(#[trigger] rows[r][c])
}

/// Nothing encodes to no bytes.
pub proof fn lemma_each_empty<T>(encoder: spec_fn(T) -> Seq<u8>)
    ensures
        each(Seq::<T>::empty(), encoder) == Seq::<u8>::empty(),
{
}

/// One more item adds its bytes behind.
pub proof fn lemma_each_push<T>(items: Seq<T>, item: T, encoder: spec_fn(T) -> Seq<u8>)
    ensures
        each(items.push(item), encoder) == each(items, encoder) + encoder(item),
{
    items.lemma_push_map_commute(encoder, item);
    items.map_values(encoder).lemma_flatten_push(encoder(item));
}

/// The bytes of the items are the bytes of the first, then those of the others.
pub proof fn lemma_each_first<T>(items: Seq<T>, encoder: spec_fn(T) -> Seq<u8>)
    requires
        items.len() > 0,
    ensures
        each(items, encoder) == encoder(items.first()) + each(items.drop_first(), encoder),
{
    assert(items.map_values(encoder).drop_first() =~= items.drop_first().map_values(encoder));
}

/// A count that was written is read back.
pub proof fn lemma_u64_roundtrip(x: u64, tail: Seq<u8>)
    ensures
        parse_u64(u64_bytes(x) + tail) == Some((x, tail)),
{
    lemma_auto_spec_u64_to_from_le_bytes();
    let s = u64_bytes(x) + tail;
    assert(s.take(8) =~= u64_bytes(x));
}

/// A text that was written is read back.
pub proof fn lemma_text_roundtrip(t: Seq<char>, tail: Seq<u8>)
    requires
        text_storable(t),
    ensures
        parse_text(text_bytes(t) + tail) == Some((t, tail)),
{
    let body = encode_utf8(t);
    let n = body.len() as u64;
    assert(text_bytes(t) + tail =~= u64_bytes(n) + (body + tail));
    lemma_u64_roundtrip(n, body + tail);
    assert((body + tail).take(n as int) =~= body);
    encode_utf8_valid_utf8(t);
    encode_utf8_decode_utf8(t);
}

/// A column that was written is read back.
pub proof fn lemma_column_roundtrip(c: ColumnSpec, tail: Seq<u8>)
    requires
        text_storable(c.name),
    ensures
        parse_column(column_bytes(c) + tail) == Some((c, tail)),
{
    let marks = seq![type_tag(c.ty), flag(c.nullable)];
    assert(column_bytes(c) + tail =~= text_bytes(c.name) + (marks + tail));
    lemma_text_roundtrip(c.name, marks + tail);
}

/// A value that was written is read back.
pub proof fn lemma_value_roundtrip(v: ValueSpec, tail: Seq<u8>)
    requires
        value_storable(v),
    ensures
        parse_value(value_bytes(v) + tail) == Some((v, tail)),
{
    let s = value_bytes(v) + tail;
    match v {
        ValueSpec::Null => {
            assert(s.skip(1) =~= tail);
        },
        ValueSpec::Integer(x) => {
            assert(s.skip(1) =~= u64_bytes(shifted_i32(x)) + tail);
            lemma_u64_roundtrip(shifted_i32(x), tail);
        },
        ValueSpec::Long(x) => {
            assert(s.skip(1) =~= u64_bytes(shifted_i64(x)) + tail);
            lemma_u64_roundtrip(shifted_i64(x), tail);
        },
        ValueSpec::Boolean(b) => {
            assert(s.skip(1) =~= seq![flag(b)] + tail);
            assert((seq![flag(b)] + tail).skip(1) =~= tail);
        },
        ValueSpec::Text(t) => {
            assert(s.skip(1) =~= text_bytes(t) + tail);
            lemma_text_roundtrip(t, tail);
        },
    }
}

/// Items that were written one after the other are read back in their order,
/// where each of them alone is read back.
pub proof fn lemma_many_roundtrip<T>(
    items: Seq<T>,
    encoder: spec_fn(T) -> Seq<u8>,
    one: spec_fn(Seq<u8>) -> Parsed<T>,
    tail: Seq<u8>,
)
    requires
        forall|i: int, behind: Seq<u8>|
            0 <= i < items.len() ==> #[trigger] one(encoder(items[i]) + behind) == Some(
                (items[i], behind),
            ),
    ensures
        parse_many(each(items, encoder) + tail, items.len(), one) == Some((items, tail)),
    decreases items.len(),
{
    if items.len() == 0 {
        lemma_each_empty(encoder);
        assert(items =~= Seq::<T>::empty());
        assert(each(items, encoder) + tail =~= tail);
    } else {
        let others = items.drop_first();
        lemma_each_first(items, encoder);
        let behind = each(others, encoder) + tail;
        assert(each(items, encoder) + tail =~= encoder(items[0]) + behind);
        assert(one(encoder(items[0]) + behind) == Some((items[0], behind)));
        assert forall|i: int, b: Seq<u8>| 0 <= i < others.len() implies #[trigger] one(
            encoder(others[i]) + b,
        ) == Some((others[i], b)) by {
            assert(others[i] == items[i + 1]);
        }
        lemma_many_roundtrip(others, encoder, one, tail);
        assert(seq![items[0]] + others =~= items);
    }
}

/// A schema that was written is read back.
pub proof fn lemma_schema_roundtrip(s: Seq<ColumnSpec>, tail: Seq<u8>)
    requires
        schema_storable(s),
    ensures
        parse_schema(schema_bytes(s) + tail) == Some((s, tail)),
{
    let width = s.len() as u64;
    let behind = each(s, column_encoder()) + tail;
    assert(schema_bytes(s) + tail =~= u64_bytes(width) + behind);
    lemma_u64_roundtrip(width, behind);
    assert forall|i: int, b: Seq<u8>| 0 <= i < s.len() implies #[trigger] column_parser()(
        column_encoder()(s[i]) + b,
    ) == Some((s[i], b)) by {
        lemma_column_roundtrip(s[i], b);
    }
    lemma_many_roundtrip(s, column_encoder(), column_parser(), tail);
}

/// A data file that was written is read back: the same layout, and the same rows
/// with the same values in the same order.
pub proof fn lemma_file_roundtrip(layout: Seq<ColumnSpec>, rows: Seq<Seq<ValueSpec>>)
    requires
        storable(layout, rows),
    ensures
        parse_file(file_bytes(layout, rows)) == Some((layout, rows)),
{
    let count = rows.len() as u64;
    let body = each(rows, row_encoder());
    let behind = u64_bytes(count) + body;
    assert(file_bytes(layout, rows) =~= schema_bytes(layout) + behind);
    lemma_schema_roundtrip(layout, behind);
    lemma_u64_roundtrip(count, body);
    assert forall|i: int, b: Seq<u8>| 0 <= i < rows.len() implies #[trigger] row_parser(
        layout.len(),
    )(row_encoder()(rows[i]) + b) == Some((rows[i], b)) by {
        let row = rows[i];
        assert forall|c: int, b2: Seq<u8>| 0 <= c < row.len() implies #[trigger] value_parser()(
            value_encoder()(row[c]) + b2,
        ) == Some((row[c], b2)) by {
            lemma_value_roundtrip(row[c], b2);
        }
        lemma_many_roundtrip(row, value_encoder(), value_parser(), b);
    }
    lemma_many_roundtrip(rows, row_encoder(), row_parser(layout.len()), Seq::<u8>::empty());
}

pub(crate) fn put_u64(out: &mut Vec<u8>, x: u64)
    ensures
        final(out)@ == old(out)@ + u64_bytes(x),
{
    let mut b = u64_to_le_bytes(x);
    out.append(&mut b);
}

fn put_text(out: &mut Vec<u8>, t: &String)
    ensures
        final(out)@ == old(out)@ + text_bytes(t@),
        text_storable(t@),
{
    let mut b = t.as_str().as_bytes_vec();
    put_u64(out, b.len() as u64);
    out.append(&mut b);
}

fn put_column(out: &mut Vec<u8>, c: &Column)
    ensures
        final(out)@ == old(out)@ + column_bytes(c@),
        text_storable(c@.name),
{
    let ghost before = out@;
    put_text(out, &c.name);
    let tag: u8 = match c.ty {
        ColumnType::Integer => 1,
        ColumnType::Long => 2,
        ColumnType::Boolean => 3,
        ColumnType::String => 4,
    };
    out.push(tag);
    out.push(if c.nullable { 1 } else { 0 });
}

pub(crate) fn put_schema(out: &mut Vec<u8>, s: &Schema)
    ensures
        final(out)@ == old(out)@ + schema_bytes(s@),
        schema_storable(s@),
{
    let width = s.len();
    put_u64(out, width as u64);
    let ghost head = out@;
    let mut c: usize = 0;
    while c < width
        invariant
            c <= width == s@.len(),
            out@ == head + each(s@.take(c as int), column_encoder()),
            forall|k: int| 0 <= k < c ==> text_storable((#[trigger] s@[k]).name),
        decreases width - c,
    {
        proof {
            lemma_each_push(s@.take(c as int), s@[c as int], column_encoder());
            assert(s@.take(c + 1) =~= s@.take(c as int).push(s@[c as int]));
        }
        put_column(out, s.column(c));
        c += 1;
    }
    assert(s@.take(width as int) =~= s@);
}

fn put_value(out: &mut Vec<u8>, v: &Value)
    ensures
        final(out)@ == old(out)@ + value_bytes(v@),
        value_storable(v@),
{
    match v {
        Value::Null => {
            out.push(0);
        },
        Value::Integer(x) => {
            out.push(1);
            put_u64(out, (*x as i64 + 0x8000_0000) as u64);
        },
        Value::Long(x) => {
            out.push(2);
            put_u64(out, (*x as i128 + 0x8000_0000_0000_0000) as u64);
        },
        Value::Boolean(b) => {
            out.push(3);
            out.push(if *b { 1 } else { 0 });
        },
        Value::Text(t) => {
            out.push(4);
            put_text(out, t);
        },
    }
}

fn put_row(out: &mut Vec<u8>, row: &Vec<Value>)
    ensures
        final(out)@ == old(out)@ + row_bytes(row_view(row@)),
        forall|c: int| 0 <= c < row.len() ==> value_storable(#[trigger] row_view(row@)[c]),
{
    let ghost before = out@;
    let ghost all = row_view(row@);
    let n = row.len();
    let mut i: usize = 0;
    while i < n
        invariant
            i <= n == row.len(),
            all == row_view(row@),
            out@ == before + each(all.take(i as int), value_encoder()),
            forall|c: int| 0 <= c < i ==> value_storable(#[trigger] all[c]),
        decreases n - i,
    {
        proof {
            lemma_each_push(all.take(i as int), all[i as int], value_encoder());
            assert(all.take(i + 1) =~= all.take(i as int).push(all[i as int]));
        }
        put_value(out, &row[i]);
        i += 1;
    }
    assert(all.take(n as int) =~= all);
}

/// The bytes of the data file that holds `rows`, laid out by `layout`. Where every
/// row has one value per column, reading the bytes gives the layout and the rows
/// back.
pub fn encode_file(layout: &Schema, rows: &Vec<Vec<Value>>) -> (out: Vec<u8>)
    ensures
        out@ == file_bytes(layout@, rows_view(rows@)),
        (forall|r: int| 0 <= r < rows.len() ==> (#[trigger] rows[r]).len() == layout@.len())
            ==> parse_file(out@) == Some((layout@, rows_view(rows@))),
{
    let mut out: Vec<u8> = Vec::new();
    put_schema(&mut out, layout);
    let n = rows.len();
    put_u64(&mut out, n as u64);
    let ghost mid = out@;
    let ghost all = rows_view(rows@);
    let mut r: usize = 0;
    while r < n
        invariant
            r <= n == rows.len(),
            all == rows_view(rows@),
            out@ == mid + each(all.take(r as int), row_encoder()),
            forall|k: int, c: int|
                0 <= k < r && 0 <= c < all[k].len() ==> value_storable(#[trigger] all[k][c]),
        decreases n - r,
    {
        proof {
            lemma_each_push(all.take(r as int), all[r as int], row_encoder());
            assert(all.take(r + 1) =~= all.take(r as int).push(all[r as int]));
        }
        put_row(&mut out, &rows[r]);
        r += 1;
    }
    assert(all.take(n as int) =~= all);
    proof {
        if forall|r: int| 0 <= r < rows.len() ==> (#[trigger] rows[r]).len() == layout@.len() {
            assert forall|r: int| 0 <= r < all.len() implies (#[trigger] all[r]).len()
                == layout@.len() by {
                assert(rows[r].len() == layout@.len());
            }
            lemma_file_roundtrip(layout@, all);
        }
    }
    out
}

/// The string whose UTF-8 encoding the bytes are, if they are one.
///
/// Calls `String::from_utf8`, which checks that the bytes are valid UTF-8 and, if
/// so, makes them the content of the string as they are. What is claimed, and not
/// proved: on success the string's encoding is the bytes handed in, and it fails
/// only on bytes that are not valid UTF-8.
#[verifier::external_body]
fn text_from_utf8(bytes: Vec<u8>) -> (r: Option<String>)
    ensures
        match r {
            Some(t) => encode_utf8(t@) == bytes@,
            None => !valid_utf8(bytes@),
        },
{
    String::from_utf8(bytes).ok()
}

pub(crate) fn take_u64(bytes: &Vec<u8>, pos: usize) -> (r: Option<(u64, usize)>)
    requires
        pos <= bytes.len(),
    ensures
        match r {
            Some((x, p)) => pos <= p <= bytes.len() && parse_u64(bytes@.skip(pos as int)) == Some(
                (x, bytes@.skip(p as int)),
            ),
            None => parse_u64(bytes@.skip(pos as int)) is None,
        },
{
    if bytes.len() - pos < 8 {
        return None;
    }
    let x = u64_from_le_bytes(slice_subrange(bytes.as_slice(), pos, pos + 8));
    proof {
        assert(bytes@.skip(pos as int).take(8) =~= bytes@.subrange(pos as int, pos + 8));
    }
    Some((x, pos + 8))
}

pub(crate) fn take_byte(bytes: &Vec<u8>, pos: usize) -> (r: Option<(u8, usize)>)
    requires
        pos <= bytes.len(),
    ensures
        match r {
            Some((x, p)) => pos <= p <= bytes.len() && parse_byte(bytes@.skip(pos as int)) == Some(
                (x, bytes@.skip(p as int)),
            ),
            None => parse_byte(bytes@.skip(pos as int)) is None,
        },
{
    if bytes.len() - pos < 1 {
        return None;
    }
    Some((bytes[pos], pos + 1))
}

fn take_text(bytes: &Vec<u8>, pos: usize) -> (r: Option<(String, usize)>)
    requires
        pos <= bytes.len(),
    ensures
        match r {
            Some((t, p)) => pos <= p <= bytes.len() && parse_text(bytes@.skip(pos as int)) == Some(
                (t@, bytes@.skip(p as int)),
            ),
            None => parse_text(bytes@.skip(pos as int)) is None,
        },
{
    let (n, start) = match take_u64(bytes, pos) {
        Some(found) => found,
        None => {
            return None;
        },
    };
    if n > (bytes.len() - start) as u64 {
        return None;
    }
    let end = start + n as usize;
    let body = slice_to_vec(slice_subrange(bytes.as_slice(), start, end));
    proof {
        assert(bytes@.skip(start as int).take(n as int) =~= bytes@.subrange(
            start as int,
            end as int,
        ));
    }
    match text_from_utf8(body) {
        Some(t) => {
            proof {
                encode_utf8_valid_utf8(t@);
                encode_utf8_decode_utf8(t@);
            }
            Some((t, end))
        },
        None => None,
    }
}

fn take_column(bytes: &Vec<u8>, pos: usize) -> (r: Option<(Column, usize)>)
    requires
        pos <= bytes.len(),
    ensures
        match r {
            Some((c, p)) => pos <= p <= bytes.len() && parse_column(bytes@.skip(pos as int))
                == Some((c@, bytes@.skip(p as int))),
            None => parse_column(bytes@.skip(pos as int)) is None,
        },
{
    let (name, at1) = match take_text(bytes, pos) {
        Some(found) => found,
        None => {
            return None;
        },
    };
    let (tag, at2) = match take_byte(bytes, at1) {
        Some(found) => found,
        None => {
            return None;
        },
    };
    let (mark, at3) = match take_byte(bytes, at2) {
        Some(found) => found,
        None => {
            return None;
        },
    };
    let ty = if tag == 1 {
        ColumnType::Integer
    } else if tag == 2 {
        ColumnType::Long
    } else if tag == 3 {
        ColumnType::Boolean
    } else if tag == 4 {
        ColumnType::String
    } else {
        return None;
    };
    if mark > 1 {
        return None;
    }
    Some((Column { name, ty, nullable: mark == 1 }, at3))
}

/// Reads the columns of a schema. Whether their names are distinct is left to the
/// caller.
pub(crate) fn take_columns(bytes: &Vec<u8>, pos: usize) -> (r: Option<(Vec<Column>, usize)>)
    requires
        pos <= bytes.len(),
    ensures
        match r {
            Some((columns, p)) => pos <= p <= bytes.len() && parse_schema(bytes@.skip(pos as int))
                == Some((columns_view(columns@), bytes@.skip(p as int))),
            None => parse_schema(bytes@.skip(pos as int)) is None,
        },
{
    let (width, start) = match take_u64(bytes, pos) {
        Some(found) => found,
        None => {
            return None;
        },
    };
    let ghost whole = parse_many(bytes@.skip(start as int), width as nat, column_parser());
    let mut columns: Vec<Column> = Vec::new();
    let mut p = start;
    let mut c: u64 = 0;
    while c < width
        invariant
            c <= width,
            start <= p <= bytes.len(),
            parse_u64(bytes@.skip(pos as int)) == Some((width, bytes@.skip(start as int))),
            whole == parse_many(bytes@.skip(start as int), width as nat, column_parser()),
            whole == after(
                columns_view(columns@),
                parse_many(bytes@.skip(p as int), (width - c) as nat, column_parser()),
            ),
        decreases width - c,
    {
        match take_column(bytes, p) {
            Some((column, next)) => {
                columns.push(column);
                p = next;
            },
            None => {
                return None;
            },
        }
        c += 1;
    }
    Some((columns, p))
}

fn take_value(bytes: &Vec<u8>, pos: usize) -> (r: Option<(Value, usize)>)
    requires
        pos <= bytes.len(),
    ensures
        match r {
            Some((v, p)) => pos <= p <= bytes.len() && parse_value(bytes@.skip(pos as int))
                == Some((v@, bytes@.skip(p as int))),
            None => parse_value(bytes@.skip(pos as int)) is None,
        },
{
    let (tag, at1) = match take_byte(bytes, pos) {
        Some(found) => found,
        None => {
            return None;
        },
    };
    if tag == 0 {
        Some((Value::Null, at1))
    } else if tag == 1 {
        match take_u64(bytes, at1) {
            Some((u, at2)) => if u <= 0xffff_ffff {
                Some((Value::Integer((u as i64 - 0x8000_0000) as i32), at2))
            } else {
                None
            },
            None => None,
        }
    } else if tag == 2 {
        match take_u64(bytes, at1) {
            Some((u, at2)) => Some(
                (Value::Long((u as i128 - 0x8000_0000_0000_0000) as i64), at2),
            ),
            None => None,
        }
    } else if tag == 3 {
        match take_byte(bytes, at1) {
            Some((b, at2)) => if b <= 1 {
                Some((Value::Boolean(b == 1), at2))
            } else {
                None
            },
            None => None,
        }
    } else if tag == 4 {
        match take_text(bytes, at1) {
            Some((t, at2)) => Some((Value::Text(t), at2)),
            None => None,
        }
    } else {
        None
    }
}

fn take_row(bytes: &Vec<u8>, pos: usize, width: usize) -> (r: Option<(Vec<Value>, usize)>)
    requires
        pos <= bytes.len(),
    ensures
        match r {
            Some((row, p)) => pos <= p <= bytes.len() && row.len() == width && row_parser(
                width as nat,
            )(bytes@.skip(pos as int)) == Some((row_view(row@), bytes@.skip(p as int))),
            None => row_parser(width as nat)(bytes@.skip(pos as int)) is None,
        },
{
    let ghost whole = parse_many(bytes@.skip(pos as int), width as nat, value_parser());
    let mut row: Vec<Value> = Vec::new();
    let mut p = pos;
    let mut i: usize = 0;
    while i < width
        invariant
            i <= width,
            pos <= p <= bytes.len(),
            row.len() == i,
            whole == parse_many(bytes@.skip(pos as int), width as nat, value_parser()),
            whole == after(
                row_view(row@),
                parse_many(bytes@.skip(p as int), (width - i) as nat, value_parser()),
            ),
        decreases width - i,
    {
        match take_value(bytes, p) {
            Some((v, next)) => {
                row.push(v);
                p = next;
            },
            None => {
                return None;
            },
        }
        i += 1;
    }
    Some((row, p))
}

/// Reads a data file back: the batch of its rows, laid out as the file says.
///
/// The answer is `None` where the bytes are not a data file, and where the
/// layout they hold names a column twice.
pub fn decode_file(bytes: &Vec<u8>) -> (r: Option<RowBatch>)
    ensures
        match r {
            Some(b) => unique_names(b@.schema) && parse_file(bytes@) == Some(
                (b@.schema, b@.rows),
            ),
            None => match parse_file(bytes@) {
                Some((layout, _)) => !unique_names(layout),
                None => true,
            },
        },
{
    assert(bytes@.skip(0) =~= bytes@);
    let (columns, at1) = match take_columns(bytes, 0) {
        Some(found) => found,
        None => {
            return None;
        },
    };
    let ghost layout = columns_view(columns@);
    let width = columns.len();
    let (count, at2) = match take_u64(bytes, at1) {
        Some(found) => found,
        None => {
            return None;
        },
    };
    let ghost whole = parse_many(bytes@.skip(at2 as int), count as nat, row_parser(width as nat));
    let mut rows: Vec<Vec<Value>> = Vec::new();
    let mut p = at2;
    let mut r: u64 = 0;
    while r < count
        invariant
            r <= count,
            at2 <= p <= bytes.len(),
            rows.len() == r,
            width == layout.len(),
            layout == columns_view(columns@),
            forall|k: int| 0 <= k < rows.len() ==> (#[trigger] rows[k]).len() == width,
            parse_schema(bytes@) == Some((layout, bytes@.skip(at1 as int))),
            parse_u64(bytes@.skip(at1 as int)) == Some((count, bytes@.skip(at2 as int))),
            whole == parse_many(bytes@.skip(at2 as int), count as nat, row_parser(width as nat)),
            whole == after(
                rows_view(rows@),
                parse_many(bytes@.skip(p as int), (count - r) as nat, row_parser(width as nat)),
            ),
        decreases count - r,
    {
        match take_row(bytes, p, width) {
            Some((row, next)) => {
                rows.push(row);
                p = next;
            },
            None => {
                return None;
            },
        }
        r += 1;
    }
    if p != bytes.len() {
        return None;
    }
    let schema = match Schema::declare(columns) {
        Ok(schema) => schema,
        Err(_) => {
            return None;
        },
    };
    RowBatch::new(schema, rows)
}

} // verus!
