use bronze_table::commit::commit;
use bronze_table::error::TableError;
use bronze_table::ingest::ingest;
use bronze_table::log::{DataFileRef, LogStore, TableState};
use bronze_table::rows::{RowBatch, Value};
use bronze_table::schema::{Column, ColumnType, Schema};
use bronze_table::table::create_table;

fn table_schema() -> Schema {
    Schema::declare(vec![
        Column::new("id", ColumnType::Integer, false),
        Column::new("name", ColumnType::String, false),
        Column::new("amount", ColumnType::Integer, false),
    ])
    .unwrap()
}

fn feed_schema() -> Schema {
    Schema::declare(vec![
        Column::new("id", ColumnType::Integer, true),
        Column::new("name", ColumnType::String, true),
        Column::new("amount", ColumnType::Integer, true),
        Column::new("half_amount", ColumnType::Integer, true),
    ])
    .unwrap()
}

fn fresh_table() -> (LogStore, TableState) {
    let mut log = LogStore::new();
    let state = create_table(&mut log, table_schema()).unwrap();
    (log, state)
}

fn feed_row(id: i32, name: &str, amount: i32) -> Vec<Value> {
    vec![
        Value::Integer(id),
        Value::Text(name.to_string()),
        Value::Integer(amount),
        Value::Integer(amount / 2),
    ]
}

#[test]
fn ingest_with_an_extra_column_evolves_the_schema() {
    let (mut log, state) = fresh_table();
    let batch = RowBatch::new(feed_schema(), vec![feed_row(1, "a", 10)]).unwrap();
    let done = ingest(&state, &vec![batch], 7).unwrap();

    let target = &done.plan.target_schema;
    assert_eq!(target.len(), 4);
    assert_eq!(*target.column(0), Column::new("id", ColumnType::Integer, false));
    assert_eq!(*target.column(1), Column::new("name", ColumnType::String, false));
    assert_eq!(*target.column(2), Column::new("amount", ColumnType::Integer, false));
    assert_eq!(*target.column(3), Column::new("half_amount", ColumnType::Integer, true));
    assert_eq!(done.plan.row_count, 1);
    assert_eq!(done.plan.new_files.len(), 1);
    assert_eq!(done.payloads.len(), 1);

    let receipt = commit(&mut log, done.plan, &state, 3).unwrap();
    assert_eq!(receipt.version, 1);
    assert_eq!(receipt.adds, 1);
    assert_eq!(receipt.retries, 0);

    let after = log.state().unwrap();
    assert_eq!(after.version(), 1);
    assert_eq!(after.schema().len(), 4);
    assert!(after.schema().column(3).nullable);
    assert_eq!(after.schema().column(3).name, "half_amount");
    assert_eq!(after.files().len(), 1);
}

#[test]
fn ingest_names_files_by_writer_and_place() {
    let (_log, state) = fresh_table();
    let first = RowBatch::new(feed_schema(), vec![feed_row(1, "a", 10), feed_row(2, "b", 20)])
        .unwrap();
    let second = RowBatch::new(feed_schema(), vec![feed_row(3, "c", 30)]).unwrap();
    let third = RowBatch::new(feed_schema(), Vec::new()).unwrap();
    let done = ingest(&state, &vec![first, second, third], 42).unwrap();
    assert_eq!(done.plan.row_count, 3);
    let files = &done.plan.new_files;
    assert_eq!(files.len(), 3);
    for (i, f) in files.iter().enumerate() {
        assert_eq!(f.writer, 42);
        assert_eq!(f.part, i as u64);
        assert_eq!(f.byte_size, done.payloads[i].len() as u64);
    }
    assert_eq!(files[0].row_count, 2);
    assert_eq!(files[1].row_count, 1);
    assert_eq!(files[2].row_count, 0);
}

#[test]
fn ingest_payload_has_the_exact_size_of_its_encoding() {
    let mut log = LogStore::new();
    let schema = Schema::declare(vec![Column::new("id", ColumnType::Integer, false)]).unwrap();
    let state = create_table(&mut log, schema.duplicate()).unwrap();
    let batch = RowBatch::new(schema, vec![vec![Value::Integer(1)]]).unwrap();
    let done = ingest(&state, &vec![batch], 0).unwrap();
    assert_eq!(
        done.plan.new_files[0],
        DataFileRef { writer: 0, part: 0, row_count: 1, byte_size: 37 }
    );
    let want: Vec<u8> = vec![
        1, 0, 0, 0, 0, 0, 0, 0, // one column
        2, 0, 0, 0, 0, 0, 0, 0, b'i', b'd', 1, 0, // "id", integer, not nullable
        1, 0, 0, 0, 0, 0, 0, 0, // one row
        1, 1, 0, 0, 128, 0, 0, 0, 0, // integer 1
    ];
    assert_eq!(done.payloads[0], want);
}

#[test]
fn ingest_null_in_a_non_nullable_column_is_refused() {
    let (mut log, state) = fresh_table();
    let good = feed_row(1, "a", 10);
    let bad = vec![Value::Integer(2), Value::Null, Value::Integer(20), Value::Integer(10)];
    let batch = RowBatch::new(feed_schema(), vec![good, bad]).unwrap();
    let err = ingest(&state, &vec![batch], 7).unwrap_err();
    assert_eq!(err, TableError::RowValidationError { batch: 0, row: 1 });

    let after = log.state().unwrap();
    assert!(after.same_as(&state));
    assert_eq!(after.version(), 0);
    assert_eq!(after.files().len(), 0);
    assert_eq!(log.version_count(), 1);
    assert_eq!(log.try_append(0, Vec::new()).error(), Some(TableError::ConflictError));
}

#[test]
fn ingest_reports_the_first_bad_row_over_all_batches() {
    let (_log, state) = fresh_table();
    let first = RowBatch::new(feed_schema(), vec![feed_row(1, "a", 10)]).unwrap();
    let wrong_type = vec![
        Value::Integer(2),
        Value::Text("b".to_string()),
        Value::Text("twenty".to_string()),
        Value::Null,
    ];
    let second = RowBatch::new(feed_schema(), vec![feed_row(3, "c", 30), wrong_type]).unwrap();
    let err = ingest(&state, &vec![first, second], 7).unwrap_err();
    assert_eq!(err, TableError::RowValidationError { batch: 1, row: 1 });
}

#[test]
fn ingest_a_missing_column_counts_as_null() {
    let (_log, state) = fresh_table();
    let narrow = Schema::declare(vec![
        Column::new("id", ColumnType::Integer, false),
        Column::new("name", ColumnType::String, false),
    ])
    .unwrap();
    let batch = RowBatch::new(
        narrow.duplicate(),
        vec![vec![Value::Integer(1), Value::Text("a".to_string())]],
    )
    .unwrap();
    let err = ingest(&state, &vec![batch], 7).unwrap_err();
    assert_eq!(err, TableError::RowValidationError { batch: 0, row: 0 });

    let empty = RowBatch::new(narrow, Vec::new()).unwrap();
    let done = ingest(&state, &vec![empty], 7).unwrap();
    assert!(done.plan.target_schema.same_as(state.schema()));
    assert_eq!(done.plan.row_count, 0);
}

#[test]
fn ingest_schema_conflict_names_the_column() {
    let (_log, state) = fresh_table();
    let other = Schema::declare(vec![
        Column::new("id", ColumnType::Integer, false),
        Column::new("amount", ColumnType::Long, false),
    ])
    .unwrap();
    let batch = RowBatch::new(other, Vec::new()).unwrap();
    let err = ingest(&state, &vec![batch], 7).unwrap_err();
    assert_eq!(err, TableError::SchemaConflict { column: "amount".to_string() });
}

#[test]
fn ingest_batches_conflicting_with_each_other_are_refused() {
    let (_log, state) = fresh_table();
    let one = Schema::declare(vec![Column::new("extra", ColumnType::Long, false)]).unwrap();
    let two = Schema::declare(vec![Column::new("extra", ColumnType::Boolean, false)]).unwrap();
    let a = RowBatch::new(one, Vec::new()).unwrap();
    let b = RowBatch::new(two, Vec::new()).unwrap();
    let err = ingest(&state, &vec![a, b], 7).unwrap_err();
    assert_eq!(err, TableError::SchemaConflict { column: "extra".to_string() });
}

#[test]
fn ingest_of_no_batches_plans_nothing() {
    let (_log, state) = fresh_table();
    let done = ingest(&state, &Vec::new(), 7).unwrap();
    assert!(done.plan.target_schema.same_as(state.schema()));
    assert_eq!(done.plan.new_files.len(), 0);
    assert_eq!(done.plan.row_count, 0);
    assert!(done.payloads.is_empty());
}

#[test]
fn row_batch_needs_one_value_per_column() {
    assert!(RowBatch::new(feed_schema(), vec![vec![Value::Integer(1)]]).is_none());
    assert!(RowBatch::new(feed_schema(), vec![feed_row(1, "a", 10)]).is_some());
    let b = RowBatch::new(Schema::empty(), vec![Vec::new(), Vec::new()]).unwrap();
    assert_eq!(b.row_count(), 2);
    assert_eq!(b.schema().len(), 0);
}

#[test]
fn project_onto_lays_rows_out_by_the_target() {
    let target = Schema::declare(vec![
        Column::new("amount", ColumnType::Integer, false),
        Column::new("missing", ColumnType::Long, true),
        Column::new("id", ColumnType::Integer, false),
    ])
    .unwrap();
    let batch = RowBatch::new(feed_schema(), vec![feed_row(1, "a", 10), feed_row(2, "b", 21)])
        .unwrap();
    let rows = batch.project_onto(&target).unwrap();
    assert_eq!(
        rows,
        vec![
            vec![Value::Integer(10), Value::Null, Value::Integer(1)],
            vec![Value::Integer(21), Value::Null, Value::Integer(2)],
        ]
    );
}

#[test]
fn value_fits_its_own_type_and_null_where_nullable() {
    let strict = Column::new("c", ColumnType::Long, false);
    let lax = Column::new("c", ColumnType::Long, true);
    assert!(Value::Long(5).fits(&strict));
    assert!(!Value::Integer(5).fits(&strict));
    assert!(!Value::Null.fits(&strict));
    assert!(Value::Null.fits(&lax));
    assert!(Value::Boolean(true).fits(&Column::new("b", ColumnType::Boolean, false)));
    assert!(Value::Text(String::new()).fits(&Column::new("s", ColumnType::String, false)));
    assert!(!Value::Text(String::new()).fits(&lax));
}

#[test]
fn ingest_refuses_a_writer_whose_files_are_live() {
    let (mut log, state) = fresh_table();
    let batch = || RowBatch::new(feed_schema(), vec![feed_row(1, "a", 10)]).unwrap();
    let done = ingest(&state, &vec![batch()], 7).unwrap();
    commit(&mut log, done.plan, &state, 3).unwrap();
    let seen = log.state().unwrap();
    assert_eq!(ingest(&seen, &vec![batch()], 7).unwrap_err(), TableError::ConflictError);
    assert_eq!(ingest(&seen, &Vec::new(), 7).unwrap_err(), TableError::ConflictError);
    let other = ingest(&seen, &vec![batch()], 8).unwrap();
    assert_eq!(other.plan.new_files[0].writer, 8);
    assert!(!seen.files().contains(&other.plan.new_files[0]));
}
