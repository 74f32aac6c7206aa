use bronze_table::encoding::{decode_file, encode_file};
use bronze_table::ingest::ingest;
use bronze_table::log::LogStore;
use bronze_table::rows::{RowBatch, Value};
use bronze_table::schema::{Column, ColumnType, Schema};
use bronze_table::table::create_table;

fn wide_schema() -> Schema {
    Schema::declare(vec![
        Column::new("i", ColumnType::Integer, true),
        Column::new("l", ColumnType::Long, true),
        Column::new("b", ColumnType::Boolean, false),
        Column::new("s", ColumnType::String, true),
    ])
    .unwrap()
}

fn wide_rows() -> Vec<Vec<Value>> {
    vec![
        vec![
            Value::Integer(i32::MIN),
            Value::Long(i64::MIN),
            Value::Boolean(false),
            Value::Text(String::new()),
        ],
        vec![
            Value::Integer(i32::MAX),
            Value::Long(i64::MAX),
            Value::Boolean(true),
            Value::Text("h\u{e9}llo \u{4e16}\u{754c} \u{1f600}".to_string()),
        ],
        vec![Value::Null, Value::Null, Value::Boolean(true), Value::Null],
        vec![Value::Integer(-1), Value::Long(0), Value::Boolean(false), Value::Text("a".into())],
    ]
}

fn columns_of(s: &Schema) -> Vec<Column> {
    (0..s.len()).map(|i| s.column(i).duplicate()).collect()
}

#[test]
fn file_round_trips_values_and_nulls_in_order() {
    let schema = wide_schema();
    let bytes = encode_file(&schema, &wide_rows());
    let back = decode_file(&bytes).unwrap();
    assert_eq!(columns_of(back.schema()), columns_of(&schema));
    assert_eq!(*back.rows(), wide_rows());
    assert_eq!(back.row_count(), 4);
}

#[test]
fn file_without_rows_or_columns_round_trips() {
    let bytes = encode_file(&Schema::empty(), &Vec::new());
    assert_eq!(bytes, vec![0u8; 16]);
    let back = decode_file(&bytes).unwrap();
    assert_eq!(back.schema().len(), 0);
    assert_eq!(back.row_count(), 0);

    let only_rows = encode_file(&Schema::empty(), &vec![Vec::new(), Vec::new(), Vec::new()]);
    assert_eq!(decode_file(&only_rows).unwrap().row_count(), 3);
}

#[test]
fn values_have_exact_bytes() {
    let schema = Schema::declare(vec![
        Column::new("l", ColumnType::Long, true),
        Column::new("b", ColumnType::Boolean, true),
        Column::new("s", ColumnType::String, true),
        Column::new("n", ColumnType::Integer, true),
    ])
    .unwrap();
    let rows = vec![vec![
        Value::Long(-1),
        Value::Boolean(true),
        Value::Text("\u{e9}".to_string()),
        Value::Null,
    ]];
    let bytes = encode_file(&schema, &rows);
    let header_len = 8 + 4 * (8 + 1 + 2) + 8;
    assert_eq!(&bytes[..8], &[4, 0, 0, 0, 0, 0, 0, 0]);
    assert_eq!(&bytes[8..19], &[1, 0, 0, 0, 0, 0, 0, 0, b'l', 2, 1]);
    assert_eq!(&bytes[header_len - 8..header_len], &[1, 0, 0, 0, 0, 0, 0, 0]);
    let want_row: Vec<u8> = vec![
        2, 0xff, 0xff, 0xff, 0xff, 0xff, 0xff, 0xff, 0x7f, // long -1
        3, 1, // true
        4, 2, 0, 0, 0, 0, 0, 0, 0, 0xc3, 0xa9, // text of two bytes
        0, // null
    ];
    assert_eq!(&bytes[header_len..], &want_row[..]);
}

#[test]
fn decode_refuses_what_is_no_data_file() {
    let good = encode_file(&wide_schema(), &wide_rows());
    assert!(decode_file(&good).is_some());
    assert!(decode_file(&Vec::new()).is_none());
    for cut in [1, 7, 8, 20, good.len() - 1] {
        assert!(decode_file(&good[..cut].to_vec()).is_none(), "cut at {}", cut);
    }
    let mut longer = good.clone();
    longer.push(0);
    assert!(decode_file(&longer).is_none());
}

#[test]
fn decode_refuses_bad_tags_and_flags() {
    let schema = Schema::declare(vec![Column::new("b", ColumnType::Boolean, false)]).unwrap();
    let good = encode_file(&schema, &vec![vec![Value::Boolean(true)]]);
    let n = good.len();
    assert_eq!(&good[n - 2..], &[3, 1]);

    let mut bad_value_tag = good.clone();
    bad_value_tag[n - 2] = 5;
    assert!(decode_file(&bad_value_tag).is_none());

    let mut bad_truth = good.clone();
    bad_truth[n - 1] = 2;
    assert!(decode_file(&bad_truth).is_none());

    // column: 8 bytes of count, 8 of length, 1 of name, then type tag and flag
    let mut bad_type = good.clone();
    bad_type[17] = 0;
    assert!(decode_file(&bad_type).is_none());
    let mut bad_nullable = good.clone();
    bad_nullable[18] = 7;
    assert!(decode_file(&bad_nullable).is_none());
}

#[test]
fn decode_refuses_invalid_utf8_and_numbers_out_of_range() {
    let schema = Schema::declare(vec![Column::new("s", ColumnType::String, false)]).unwrap();
    let good = encode_file(&schema, &vec![vec![Value::Text("ab".to_string())]]);
    let n = good.len();
    let mut bad = good.clone();
    bad[n - 1] = 0xff;
    assert!(decode_file(&bad).is_none());
    let mut too_long = good.clone();
    too_long[n - 10] = 3;
    assert!(decode_file(&too_long).is_none());

    let schema = Schema::declare(vec![Column::new("i", ColumnType::Integer, false)]).unwrap();
    let good = encode_file(&schema, &vec![vec![Value::Integer(0)]]);
    let n = good.len();
    assert_eq!(&good[n - 9..], &[1, 0, 0, 0, 0x80, 0, 0, 0, 0]);
    let mut out_of_range = good.clone();
    out_of_range[n - 4] = 1;
    assert!(decode_file(&out_of_range).is_none());
}

#[test]
fn decode_refuses_a_layout_that_names_a_column_twice() {
    let schema = Schema::declare(vec![
        Column::new("a", ColumnType::Integer, false),
        Column::new("b", ColumnType::Integer, false),
    ])
    .unwrap();
    let good = encode_file(&schema, &Vec::new());
    assert!(decode_file(&good).is_some());
    let mut twice = good.clone();
    let at = twice.iter().position(|x| *x == b'b').unwrap();
    twice[at] = b'a';
    assert!(decode_file(&twice).is_none());
}

#[test]
fn decode_does_not_check_values_against_the_layout() {
    let schema = Schema::declare(vec![Column::new("i", ColumnType::Integer, false)]).unwrap();
    let bytes = encode_file(&schema, &vec![vec![Value::Text("x".to_string())], vec![Value::Null]]);
    let back = decode_file(&bytes).unwrap();
    assert_eq!(*back.rows(), vec![vec![Value::Text("x".to_string())], vec![Value::Null]]);
}

#[test]
fn ingested_payload_reads_back_as_the_rows_laid_out_by_the_target() {
    let mut log = LogStore::new();
    let table = Schema::declare(vec![
        Column::new("id", ColumnType::Integer, false),
        Column::new("name", ColumnType::String, true),
    ])
    .unwrap();
    let state = create_table(&mut log, table).unwrap();
    let feed = Schema::declare(vec![
        Column::new("half", ColumnType::Integer, false),
        Column::new("id", ColumnType::Integer, false),
    ])
    .unwrap();
    let batch = RowBatch::new(
        feed,
        vec![
            vec![Value::Integer(5), Value::Integer(1)],
            vec![Value::Null, Value::Integer(2)],
            vec![Value::Integer(-7), Value::Integer(3)],
        ],
    )
    .unwrap();
    let done = ingest(&state, &vec![batch], 1).unwrap();
    let back = decode_file(&done.payloads[0]).unwrap();
    assert!(back.schema().same_as(&done.plan.target_schema));
    assert_eq!(
        columns_of(back.schema()),
        vec![
            Column::new("id", ColumnType::Integer, false),
            Column::new("name", ColumnType::String, true),
            Column::new("half", ColumnType::Integer, true),
        ]
    );
    assert_eq!(
        *back.rows(),
        vec![
            vec![Value::Integer(1), Value::Null, Value::Integer(5)],
            vec![Value::Integer(2), Value::Null, Value::Null],
            vec![Value::Integer(3), Value::Null, Value::Integer(-7)],
        ]
    );
}
