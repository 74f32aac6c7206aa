use bronze_table::log::{AppendOutcome, DataFileRef, LogAction, LogStore, TableState};
use bronze_table::record::{decode_record, encode_record};
use bronze_table::schema::{Column, ColumnType, Schema};

fn schema() -> Schema {
    Schema::declare(vec![
        Column::new("id", ColumnType::Integer, false),
        Column::new("name", ColumnType::String, true),
    ])
    .unwrap()
}

fn file(part: u64) -> DataFileRef {
    DataFileRef { writer: 9, part, row_count: 3, byte_size: 1_000_000_007 }
}

fn same_action(a: &LogAction, b: &LogAction) -> bool {
    match (a, b) {
        (LogAction::AddFile(x), LogAction::AddFile(y)) => x == y,
        (LogAction::SetSchema(x), LogAction::SetSchema(y)) => x.same_as(y),
        (LogAction::Checkpoint(x), LogAction::Checkpoint(y)) => x.same_as(y),
        _ => false,
    }
}

fn checkpoint() -> TableState {
    TableState::restore(4, schema(), vec![file(0), file(1)]).unwrap()
}

#[test]
fn record_round_trips_every_kind_of_action() {
    let actions = vec![
        LogAction::SetSchema(schema()),
        LogAction::AddFile(file(0)),
        LogAction::Checkpoint(checkpoint()),
        LogAction::AddFile(DataFileRef {
            writer: u64::MAX,
            part: 0,
            row_count: u64::MAX,
            byte_size: 0,
        }),
        LogAction::SetSchema(Schema::empty()),
    ];
    let bytes = encode_record(&actions);
    let back = decode_record(&bytes).unwrap();
    assert_eq!(back.len(), actions.len());
    for (a, b) in actions.iter().zip(back.iter()) {
        assert!(same_action(a, b), "{:?} came back as {:?}", a, b);
    }
}

#[test]
fn record_has_exact_bytes() {
    assert_eq!(encode_record(&Vec::new()), vec![0u8; 8]);
    let bytes = encode_record(&vec![LogAction::AddFile(DataFileRef {
        writer: 1,
        part: 2,
        row_count: 3,
        byte_size: 258,
    })]);
    let want: Vec<u8> = vec![
        1, 0, 0, 0, 0, 0, 0, 0, // one action
        1, // a file
        1, 0, 0, 0, 0, 0, 0, 0, // writer
        2, 0, 0, 0, 0, 0, 0, 0, // part
        3, 0, 0, 0, 0, 0, 0, 0, // rows
        2, 1, 0, 0, 0, 0, 0, 0, // bytes
    ];
    assert_eq!(bytes, want);

    let set = encode_record(&vec![LogAction::SetSchema(
        Schema::declare(vec![Column::new("x", ColumnType::Boolean, true)]).unwrap(),
    )]);
    let want: Vec<u8> = vec![
        1, 0, 0, 0, 0, 0, 0, 0, // one action
        2, // a schema
        1, 0, 0, 0, 0, 0, 0, 0, // one column
        1, 0, 0, 0, 0, 0, 0, 0, b'x', 3, 1, // "x", boolean, nullable
    ];
    assert_eq!(set, want);
}

#[test]
fn decode_refuses_what_is_no_record() {
    let good = encode_record(&vec![LogAction::AddFile(file(1)), LogAction::SetSchema(schema())]);
    assert!(decode_record(&good).is_some());
    assert!(decode_record(&Vec::new()).is_none());
    assert!(decode_record(&good[..good.len() - 1].to_vec()).is_none());
    let mut longer = good.clone();
    longer.push(1);
    assert!(decode_record(&longer).is_none());
    let mut bad_tag = good.clone();
    bad_tag[8] = 0;
    assert!(decode_record(&bad_tag).is_none());
    let mut more_promised = good.clone();
    more_promised[0] = 3;
    assert!(decode_record(&more_promised).is_none());
}

#[test]
fn decode_refuses_actions_no_table_can_hold() {
    let two = Schema::declare(vec![
        Column::new("a", ColumnType::Integer, false),
        Column::new("b", ColumnType::Integer, false),
    ])
    .unwrap();
    let good = encode_record(&vec![LogAction::SetSchema(two)]);
    let mut twice = good.clone();
    let at = twice.iter().position(|x| *x == b'b').unwrap();
    twice[at] = b'a';
    assert!(decode_record(&twice).is_none());

    let cp = encode_record(&vec![LogAction::Checkpoint(
        TableState::restore(0, Schema::empty(), Vec::new()).unwrap(),
    )]);
    assert!(decode_record(&cp).is_some());
    let mut last_version = cp.clone();
    for b in &mut last_version[9..17] {
        *b = 0xff;
    }
    assert!(decode_record(&last_version).is_none());
    assert!(TableState::restore(u64::MAX, Schema::empty(), Vec::new()).is_none());
}

#[test]
fn a_log_rebuilt_from_its_records_is_the_same_table() {
    let mut log = LogStore::new();
    log.try_append(0, vec![LogAction::SetSchema(schema())]);
    log.try_append(1, vec![LogAction::AddFile(file(0)), LogAction::AddFile(file(1))]);
    log.try_append(2, vec![LogAction::AddFile(file(2))]);
    let checkpoint = log.checkpoint(1).unwrap();

    let mut rebuilt = LogStore::new();
    for v in 0..3u64 {
        let bytes = encode_record(log.actions_at(v).unwrap());
        let actions = decode_record(&bytes).unwrap();
        assert_eq!(rebuilt.try_append(v, actions), AppendOutcome::Appended);
    }
    let stored = encode_record(&vec![LogAction::Checkpoint(checkpoint)]);
    match decode_record(&stored).unwrap().pop().unwrap() {
        LogAction::Checkpoint(cp) => assert!(rebuilt.adopt_checkpoint(&cp)),
        other => panic!("expected a checkpoint, got {:?}", other),
    }
    assert_eq!(rebuilt.last_checkpoint(2).unwrap().version(), 1);
    assert!(rebuilt.state().unwrap().same_as(&log.state().unwrap()));
}

#[test]
fn a_checkpoint_that_is_not_faithful_is_not_adopted() {
    let mut log = LogStore::new();
    log.try_append(0, vec![LogAction::SetSchema(schema())]);
    log.try_append(1, vec![LogAction::AddFile(file(0))]);
    let wrong_files = TableState::restore(1, schema(), vec![file(5)]).unwrap();
    assert!(!log.adopt_checkpoint(&wrong_files));
    let wrong_version = TableState::restore(7, schema(), vec![file(0)]).unwrap();
    assert!(!log.adopt_checkpoint(&wrong_version));
    assert!(log.last_checkpoint(9).is_none());
    let right = TableState::restore(1, schema(), vec![file(0)]).unwrap();
    assert!(log.adopt_checkpoint(&right));
    assert!(log.adopt_checkpoint(&right));
    assert_eq!(log.last_checkpoint(9).unwrap().version(), 1);
    assert!(log.state().unwrap().same_as(&right));
}
