//! The byte format of a log record: the action set of one version, or a
//! checkpoint, as the table location holds it.
//!
//! ```text
//! record     := count actions
//! action     := 1 file | 2 schema | 3 checkpoint
//! file       := writer, part, row count, byte size
//! checkpoint := version, schema, count files
//! ```
//! Schemas, counts and numbers are written as in a data file.

use crate::encoding::{
    after, each, lemma_each_push, lemma_many_roundtrip, lemma_schema_roundtrip,
    lemma_u64_roundtrip, parse_byte, parse_many, parse_schema, parse_u64, put_schema, put_u64,
    schema_bytes, schema_storable, take_byte, take_columns, take_u64, u64_bytes, Parsed,
};
use crate::log::{actions_view, ActionSpec, DataFileRef, LogAction, TableSpec, TableState};
use crate::schema::{unique_names, Schema};
use vstd::prelude::*;

verus! {
/// The bytes of a file handle.
pub open spec fn file_ref_bytes(f: DataFileRef) -> Seq<u8> {
    u64_bytes(f.writer) + u64_bytes(f.part) + u64_bytes(f.row_count) + u64_bytes(f.byte_size)
}

/// The function that gives a file handle its bytes.
pub open spec fn file_ref_encoder() -> spec_fn(DataFileRef) -> Seq<u8> {
    |f: DataFileRef| file_ref_bytes(f)
}

/// The bytes of a table state: its version, its schema, its files.
pub open spec fn state_bytes(t: TableSpec) -> Seq<u8> {
    u64_bytes(t.version as u64) + schema_bytes(t.schema) + u64_bytes(t.files.len() as u64) + each(
        t.files,
        file_ref_encoder(),
    )
}

/// The bytes of one action.
pub open spec fn action_bytes(a: ActionSpec) -> Seq<u8> {
    match a {
        ActionSpec::AddFile(f) => seq![1u8] + file_ref_bytes(f),
        ActionSpec::SetSchema(s) => seq![2u8] + schema_bytes(s),
        ActionSpec::Checkpoint(t) => seq![3u8] + state_bytes(t),
    }
}

/// The function that gives an action its bytes.
pub open spec fn action_encoder() -> spec_fn(ActionSpec) -> Seq<u8> {
    |a: ActionSpec| action_bytes(a)
}

/// The bytes of a record that holds `actions`.
pub open spec fn record_bytes(actions: Seq<ActionSpec>) -> Seq<u8> {
    u64_bytes(actions.len() as u64) + each(actions, action_encoder())
}

/// Reads a file handle.
pub open spec fn parse_file_ref(s: Seq<u8>) -> Parsed<DataFileRef> {
    match parse_u64(s) {
        Some((writer, s1)) => match parse_u64(s1) {
            Some((part, s2)) => match parse_u64(s2) {
                Some((row_count, s3)) => match parse_u64(s3) {
                    Some((byte_size, s4)) => Some(
                        (DataFileRef { writer, part, row_count, byte_size }, s4),
                    ),
                    None => None,
                },
                None => None,
            },
            None => None,
        },
        None => None,
    }
}

/// The function that reads a file handle.
pub open spec fn file_ref_parser() -> spec_fn(Seq<u8>) -> Parsed<DataFileRef> {
    |s: Seq<u8>| parse_file_ref(s)
}

/// Reads a table state.
pub open spec fn parse_state(s: Seq<u8>) -> Parsed<TableSpec> {
    match parse_u64(s) {
        Some((version, s1)) => match parse_schema(s1) {
            Some((schema, s2)) => match parse_u64(s2) {
                Some((count, s3)) => match parse_many(s3, count as nat, file_ref_parser()) {
                    Some((files, s4)) => Some(
                        (TableSpec { version: version as int, schema, files }, s4),
                    ),
                    None => None,
                },
                None => None,
            },
            None => None,
        },
        None => None,
    }
}

/// Reads one action.
pub open spec fn parse_action(s: Seq<u8>) -> Parsed<ActionSpec> {
    match parse_byte(s) {
        Some((tag, s1)) => if tag == 1 {
            match parse_file_ref(s1) {
                Some((f, s2)) => Some((ActionSpec::AddFile(f), s2)),
                None => None,
            }
        } else if tag == 2 {
            match parse_schema(s1) {
                Some((schema, s2)) => Some((ActionSpec::SetSchema(schema), s2)),
                None => None,
            }
        } else if tag == 3 {
            match parse_state(s1) {
                Some((t, s2)) => Some((ActionSpec::Checkpoint(t), s2)),
                None => None,
            }
        } else {
            None
        },
        None => None,
    }
}

/// The function that reads an action.
pub open spec fn action_parser() -> spec_fn(Seq<u8>) -> Parsed<ActionSpec> {
    |s: Seq<u8>| parse_action(s)
}

/// Reads a whole record: its actions, with nothing left over.
pub open spec fn parse_record(s: Seq<u8>) -> Option<Seq<ActionSpec>> {
    match parse_u64(s) {
        Some((count, s1)) => match parse_many(s1, count as nat, action_parser()) {
            Some((actions, s2)) => if s2.len() == 0 {
                Some(actions)
            } else {
                None
            },
            None => None,
        },
        None => None,
    }
}

/// The state can be stored: no count, no name and no number in it is beyond what
/// eight bytes can say.
pub open spec fn state_storable(t: TableSpec) -> bool {
    &&& 0 <= t.version <= u64::MAX
    &&& schema_storable(t.schema)
    &&& t.files.len() <= u64::MAX
}

/// The action can be stored.
pub open spec fn action_storable(a: ActionSpec) -> bool {
    match a {
        ActionSpec::AddFile(_) => true,
        ActionSpec::SetSchema(s) => schema_storable(s),
        ActionSpec::Checkpoint(t) => state_storable(t),
    }
}

/// The actions can be stored as one record.
pub open spec fn record_storable(actions: Seq<ActionSpec>) -> bool {
    &&& actions.len() <= u64::MAX
    &&& forall|i: int| 0 <= i < actions.len() ==> action_storable(#[trigger] actions[i])
}

/// The action is one that a table can hold: its schemas have distinct names, and
/// the version of a checkpoint has a successor.
pub open spec fn action_sound(a: ActionSpec) -> bool {
    match a {
        ActionSpec::AddFile(_) => true,
        ActionSpec::SetSchema(s) => unique_names(s),
        ActionSpec::Checkpoint(t) => unique_names(t.schema) && t.version < u64::MAX,
    }
}

/// The bytes are a record of actions that a table can hold.
pub open spec fn is_record(s: Seq<u8>) -> bool {
    parse_record(s) matches Some(actions) && forall|i: int|
        0 <= i < actions.len() ==> action_sound(#[trigger] actions[i])
}

/// A file handle that was written is read back.
pub proof fn lemma_file_ref_roundtrip(f: DataFileRef, tail: Seq<u8>)
    ensures
        parse_file_ref(file_ref_bytes(f) + tail) == Some((f, tail)),
{
    let s3 = u64_bytes(f.byte_size) + tail;
    let s2 = u64_bytes(f.row_count) + s3;
    let s1 = u64_bytes(f.part) + s2;
    assert(file_ref_bytes(f) + tail =~= u64_bytes(f.writer) + s1);
    lemma_u64_roundtrip(f.writer, s1);
    lemma_u64_roundtrip(f.part, s2);
    lemma_u64_roundtrip(f.row_count, s3);
    lemma_u64_roundtrip(f.byte_size, tail);
}

/// A table state that was written is read back.
pub proof fn lemma_state_roundtrip(t: TableSpec, tail: Seq<u8>)
    requires
        state_storable(t),
    ensures
        parse_state(state_bytes(t) + tail) == Some((t, tail)),
{
    let count = t.files.len() as u64;
    let s3 = each(t.files, file_ref_encoder()) + tail;
    let s2 = u64_bytes(count) + s3;
    let s1 = schema_bytes(t.schema) + s2;
    assert(state_bytes(t) + tail =~= u64_bytes(t.version as u64) + s1);
    lemma_u64_roundtrip(t.version as u64, s1);
    lemma_schema_roundtrip(t.schema, s2);
    lemma_u64_roundtrip(count, s3);
    assert forall|i: int, b: Seq<u8>| 0 <= i < t.files.len() implies #[trigger] file_ref_parser()(
        file_ref_encoder()(t.files[i]) + b,
    ) == Some((t.files[i], b)) by {
        lemma_file_ref_roundtrip(t.files[i], b);
    }
    lemma_many_roundtrip(t.files, file_ref_encoder(), file_ref_parser(), tail);
}

/// An action that was written is read back.
pub proof fn lemma_action_roundtrip(a: ActionSpec, tail: Seq<u8>)
    requires
        action_storable(a),
    ensures
        parse_action(action_bytes(a) + tail) == Some((a, tail)),
{
    let s = action_bytes(a) + tail;
    match a {
        ActionSpec::AddFile(f) => {
            assert(s.skip(1) =~= file_ref_bytes(f) + tail);
            lemma_file_ref_roundtrip(f, tail);
        },
        ActionSpec::SetSchema(schema) => {
            assert(s.skip(1) =~= schema_bytes(schema) + tail);
            lemma_schema_roundtrip(schema, tail);
        },
        ActionSpec::Checkpoint(t) => {
            assert(s.skip(1) =~= state_bytes(t) + tail);
            lemma_state_roundtrip(t, tail);
        },
    }
}

/// A record that was written is read back: the same actions in the same order.
pub proof fn lemma_record_roundtrip(actions: Seq<ActionSpec>)
    requires
        record_storable(actions),
    ensures
        parse_record(record_bytes(actions)) == Some(actions),
{
    let count = actions.len() as u64;
    let body = each(actions, action_encoder());
    lemma_u64_roundtrip(count, body);
    assert forall|i: int, b: Seq<u8>| 0 <= i < actions.len() implies #[trigger] action_parser()(
        action_encoder()(actions[i]) + b,
    ) == Some((actions[i], b)) by {
        lemma_action_roundtrip(actions[i], b);
    }
    lemma_many_roundtrip(actions, action_encoder(), action_parser(), Seq::<u8>::empty());
}

fn put_file_ref(out: &mut Vec<u8>, f: &DataFileRef)
    ensures
        final(out)@ == old(out)@ + file_ref_bytes(*f),
{
    put_u64(out, f.writer);
    put_u64(out, f.part);
    put_u64(out, f.row_count);
    put_u64(out, f.byte_size);
}

fn put_state(out: &mut Vec<u8>, t: &TableState)
    ensures
        final(out)@ == old(out)@ + state_bytes(t@),
        state_storable(t@),
{
    put_u64(out, t.version());
    put_schema(out, t.schema());
    let files = t.files();
    let n = files.len();
    put_u64(out, n as u64);
    let ghost head = out@;
    let mut i: usize = 0;
    while i < n
        invariant
            i <= n == files.len(),
            out@ == head + each(files@.take(i as int), file_ref_encoder()),
        decreases n - i,
    {
        proof {
            lemma_each_push(files@.take(i as int), files@[i as int], file_ref_encoder());
            assert(files@.take(i + 1) =~= files@.take(i as int).push(files@[i as int]));
        }
        put_file_ref(out, &files[i]);
        i += 1;
    }
    assert(files@.take(n as int) =~= files@);
}

fn put_action(out: &mut Vec<u8>, a: &LogAction)
    ensures
        final(out)@ == old(out)@ + action_bytes(a@),
        action_storable(a@),
{
    match a {
        LogAction::AddFile(f) => {
            out.push(1);
            put_file_ref(out, f);
        },
        LogAction::SetSchema(s) => {
            out.push(2);
            put_schema(out, s);
        },
        LogAction::Checkpoint(t) => {
            out.push(3);
            put_state(out, t);
        },
    }
}

/// The bytes of the record that holds `actions`. Reading them gives the actions
/// back.
pub fn encode_record(actions: &Vec<LogAction>) -> (out: Vec<u8>)
    ensures
        out@ == record_bytes(actions_view(actions@)),
        parse_record(out@) == Some(actions_view(actions@)),
{
    let ghost all = actions_view(actions@);
    let mut out: Vec<u8> = Vec::new();
    let n = actions.len();
    put_u64(&mut out, n as u64);
    let ghost head = out@;
    let mut i: usize = 0;
    while i < n
        invariant
            i <= n == actions.len(),
            all == actions_view(actions@),
            out@ == head + each(all.take(i as int), action_encoder()),
            forall|k: int| 0 <= k < i ==> action_storable(#[trigger] all[k]),
        decreases n - i,
    {
        proof {
            lemma_each_push(all.take(i as int), all[i as int], action_encoder());
            assert(all.take(i + 1) =~= all.take(i as int).push(all[i as int]));
        }
        put_action(&mut out, &actions[i]);
        i += 1;
    }
    proof {
        assert(all.take(n as int) =~= all);
        lemma_record_roundtrip(all);
    }
    out
}

fn take_file_ref(bytes: &Vec<u8>, pos: usize) -> (r: Option<(DataFileRef, usize)>)
    requires
        pos <= bytes.len(),
    ensures
        match r {
            Some((f, p)) => pos <= p <= bytes.len() && parse_file_ref(bytes@.skip(pos as int))
                == Some((f, bytes@.skip(p as int))),
            None => parse_file_ref(bytes@.skip(pos as int)) is None,
        },
{
    let (writer, at1) = match take_u64(bytes, pos) {
        Some(found) => found,
        None => {
            return None;
        },
    };
    let (part, at2) = match take_u64(bytes, at1) {
        Some(found) => found,
        None => {
            return None;
        },
    };
    let (row_count, at3) = match take_u64(bytes, at2) {
        Some(found) => found,
        None => {
            return None;
        },
    };
    let (byte_size, at4) = match take_u64(bytes, at3) {
        Some(found) => found,
        None => {
            return None;
        },
    };
    Some((DataFileRef { writer, part, row_count, byte_size }, at4))
}

/// Reads a schema and holds it to the rule that names are distinct.
fn take_schema(bytes: &Vec<u8>, pos: usize) -> (r: Option<(Schema, usize)>)
    requires
        pos <= bytes.len(),
    ensures
        match r {
            Some((s, p)) => pos <= p <= bytes.len() && unique_names(s@) && parse_schema(
                bytes@.skip(pos as int),
            ) == Some((s@, bytes@.skip(p as int))),
            None => match parse_schema(bytes@.skip(pos as int)) {
                Some((s, _)) => !unique_names(s),
                None => true,
            },
        },
{
    match take_columns(bytes, pos) {
        Some((columns, p)) => match Schema::declare(columns) {
            Ok(s) => Some((s, p)),
            Err(_) => None,
        },
        None => None,
    }
}

fn take_state(bytes: &Vec<u8>, pos: usize) -> (r: Option<(TableState, usize)>)
    requires
        pos <= bytes.len(),
    ensures
        match r {
            Some((t, p)) => pos <= p <= bytes.len() && action_sound(ActionSpec::Checkpoint(t@))
                && parse_state(bytes@.skip(pos as int)) == Some((t@, bytes@.skip(p as int))),
            None => match parse_state(bytes@.skip(pos as int)) {
                Some((t, _)) => !action_sound(ActionSpec::Checkpoint(t)),
                None => true,
            },
        },
{
    let (version, at1) = match take_u64(bytes, pos) {
        Some(found) => found,
        None => {
            return None;
        },
    };
    let (schema, at2) = match take_schema(bytes, at1) {
        Some(found) => found,
        None => {
            return None;
        },
    };
    let (count, at3) = match take_u64(bytes, at2) {
        Some(found) => found,
        None => {
            return None;
        },
    };
    let ghost whole = parse_many(bytes@.skip(at3 as int), count as nat, file_ref_parser());
    let mut files: Vec<DataFileRef> = Vec::new();
    let mut p = at3;
    let mut i: u64 = 0;
    while i < count
        invariant
            i <= count,
            at3 <= p <= bytes.len(),
            parse_u64(bytes@.skip(pos as int)) == Some((version, bytes@.skip(at1 as int))),
            parse_schema(bytes@.skip(at1 as int)) == Some((schema@, bytes@.skip(at2 as int))),
            parse_u64(bytes@.skip(at2 as int)) == Some((count, bytes@.skip(at3 as int))),
            whole == parse_many(bytes@.skip(at3 as int), count as nat, file_ref_parser()),
            whole == after(
                files@,
                parse_many(bytes@.skip(p as int), (count - i) as nat, file_ref_parser()),
            ),
        decreases count - i,
    {
        match take_file_ref(bytes, p) {
            Some((f, next)) => {
                files.push(f);
                p = next;
            },
            None => {
                return None;
            },
        }
        i += 1;
    }
    match TableState::restore(version, schema, files) {
        Some(t) => Some((t, p)),
        None => None,
    }
}

fn take_action(bytes: &Vec<u8>, pos: usize) -> (r: Option<(LogAction, usize)>)
    requires
        pos <= bytes.len(),
    ensures
        match r {
            Some((a, p)) => pos <= p <= bytes.len() && action_sound(a@) && parse_action(
                bytes@.skip(pos as int),
            ) == Some((a@, bytes@.skip(p as int))),
            None => match parse_action(bytes@.skip(pos as int)) {
                Some((a, _)) => !action_sound(a),
                None => true,
            },
        },
{
    let (tag, at1) = match take_byte(bytes, pos) {
        Some(found) => found,
        None => {
            return None;
        },
    };
    if tag == 1 {
        match take_file_ref(bytes, at1) {
            Some((f, at2)) => Some((LogAction::AddFile(f), at2)),
            None => None,
        }
    } else if tag == 2 {
        match take_schema(bytes, at1) {
            Some((s, at2)) => Some((LogAction::SetSchema(s), at2)),
            None => None,
        }
    } else if tag == 3 {
        match take_state(bytes, at1) {
            Some((t, at2)) => Some((LogAction::Checkpoint(t), at2)),
            None => None,
        }
    } else {
        None
    }
}

/// Reads a record back: the actions it holds, in their order.
///
/// The answer is `None` where the bytes are not a record, and where an action in
/// them is not one a table can hold: a schema that names a column twice, a
/// checkpoint of a version without successor.
pub fn decode_record(bytes: &Vec<u8>) -> (r: Option<Vec<LogAction>>)
    ensures
        match r {
            Some(actions) => is_record(bytes@) && parse_record(bytes@) == Some(
                actions_view(actions@),
            ),
            None => !is_record(bytes@),
        },
{
    assert(bytes@.skip(0) =~= bytes@);
    let (count, at1) = match take_u64(bytes, 0) {
        Some(found) => found,
        None => {
            return None;
        },
    };
    let ghost whole = parse_many(bytes@.skip(at1 as int), count as nat, action_parser());
    let mut actions: Vec<LogAction> = Vec::new();
    let mut p = at1;
    let mut i: u64 = 0;
    while i < count
        invariant
            i <= count,
            at1 <= p <= bytes.len(),
            actions.len() == i,
            parse_u64(bytes@) == Some((count, bytes@.skip(at1 as int))),
            whole == parse_many(bytes@.skip(at1 as int), count as nat, action_parser()),
            whole == after(
                actions_view(actions@),
                parse_many(bytes@.skip(p as int), (count - i) as nat, action_parser()),
            ),
            forall|k: int| 0 <= k < i ==> action_sound(#[trigger] actions_view(actions@)[k]),
        decreases count - i,
    {
        let ghost done = actions_view(actions@);
        let ghost here = parse_action(bytes@.skip(p as int));
        match take_action(bytes, p) {
            Some((a, next)) => {
                actions.push(a);
                assert(actions_view(actions@) =~= done.push(a@));
                p = next;
            },
            None => {
                proof {
                    if let Some(all) = parse_record(bytes@) {
                        let (bad, behind) = here->0;
                        let (others, rest) = parse_many(
                            behind,
                            (count - i - 1) as nat,
                            action_parser(),
                        )->0;
                        assert(all =~= done + (seq![bad] + others));
                        assert(all[done.len() as int] == bad);
                    }
                }
                return None;
            },
        }
        i += 1;
    }
    if p != bytes.len() {
        return None;
    }
    Some(actions)
}

} // verus!
