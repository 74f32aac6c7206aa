use bronze_table::commit::{
    commit, error_of, AbortReason, CommitCoordinator, CommitEvent, CommitReceipt, Directive, Phase,
};
use bronze_table::error::TableError;
use bronze_table::ingest::{ingest, IngestPlan};
use bronze_table::log::{AppendOutcome, DataFileRef, LogAction, LogStore, TableState};
use bronze_table::rows::{RowBatch, Value};
use bronze_table::schema::{Column, ColumnType, Schema};
use bronze_table::table::create_table;

fn schema_of(cols: &[(&str, ColumnType)]) -> Schema {
    Schema::declare(cols.iter().map(|(n, t)| Column::new(n, *t, true)).collect()).unwrap()
}

fn table() -> (LogStore, TableState) {
    let mut log = LogStore::new();
    let state = create_table(&mut log, schema_of(&[("id", ColumnType::Integer)])).unwrap();
    (log, state)
}

fn plan_for(state: &TableState, extra: &str, ty: ColumnType, writer: u64) -> IngestPlan {
    let schema = schema_of(&[("id", ColumnType::Integer), (extra, ty)]);
    let batch = RowBatch::new(schema, vec![vec![Value::Integer(1), Value::Null]]).unwrap();
    ingest(state, &vec![batch], writer).unwrap().plan
}

fn expect_append(d: Directive) -> (u64, Vec<LogAction>) {
    match d {
        Directive::Append { version, actions } => (version, actions),
        other => panic!("expected an append, got {:?}", other),
    }
}

#[test]
fn coordinator_walks_through_its_phases() {
    let (mut log, state) = table();
    let mut c = CommitCoordinator::new(plan_for(&state, "a", ColumnType::Long, 1), &state, 2);
    assert_eq!(c.phase(), Phase::Preparing);
    assert!(matches!(c.directive(), Directive::Begin));
    assert!(matches!(c.step(CommitEvent::Start), Directive::Observe));
    assert_eq!(c.phase(), Phase::Validating);
    let (version, actions) = expect_append(c.step(CommitEvent::Observed(log.state().unwrap())));
    assert_eq!(c.phase(), Phase::Appending);
    assert_eq!(version, 1);
    assert_eq!(actions.len(), 2);
    assert!(matches!(actions[0], LogAction::SetSchema(_)));
    assert!(matches!(
        actions[1],
        LogAction::AddFile(DataFileRef { writer: 1, part: 0, row_count: 1, .. })
    ));
    assert_eq!(log.try_append(version, actions), AppendOutcome::Appended);
    match c.step(CommitEvent::Appended) {
        Directive::Done(r) => assert_eq!(r, CommitReceipt { version: 1, adds: 1, retries: 0 }),
        other => panic!("expected done, got {:?}", other),
    }
    assert_eq!(c.phase(), Phase::Committed);
}

#[test]
fn coordinator_ignores_events_out_of_turn() {
    let (log, state) = table();
    let mut c = CommitCoordinator::new(plan_for(&state, "a", ColumnType::Long, 1), &state, 2);
    assert!(matches!(c.step(CommitEvent::Appended), Directive::Begin));
    assert!(matches!(c.step(CommitEvent::Rejected), Directive::Begin));
    assert_eq!(c.phase(), Phase::Preparing);
    c.step(CommitEvent::Start);
    assert!(matches!(c.step(CommitEvent::Start), Directive::Observe));
    assert!(matches!(c.step(CommitEvent::Appended), Directive::Observe));
    c.step(CommitEvent::Observed(log.state().unwrap()));
    assert!(matches!(c.step(CommitEvent::Start), Directive::Append { version: 1, .. }));
    assert!(matches!(c.step(CommitEvent::Appended), Directive::Done(_)));
    assert!(matches!(c.step(CommitEvent::Rejected), Directive::Done(_)));
    assert!(matches!(c.step(CommitEvent::Start), Directive::Done(_)));
    assert_eq!(c.phase(), Phase::Committed);
}

#[test]
fn two_writers_race_for_one_version() {
    let (mut log, state) = table();
    let mut a = CommitCoordinator::new(plan_for(&state, "a", ColumnType::Long, 1), &state, 3);
    let mut b = CommitCoordinator::new(plan_for(&state, "b", ColumnType::Boolean, 2), &state, 3);
    a.step(CommitEvent::Start);
    b.step(CommitEvent::Start);
    let (va, actions_a) = expect_append(a.step(CommitEvent::Observed(log.state().unwrap())));
    let (vb, actions_b) = expect_append(b.step(CommitEvent::Observed(log.state().unwrap())));
    assert_eq!((va, vb), (1, 1));

    assert_eq!(log.try_append(va, actions_a), AppendOutcome::Appended);
    let refused = log.try_append(vb, actions_b);
    assert_eq!(refused, AppendOutcome::Occupied);
    assert_eq!(refused.error(), Some(TableError::ConflictError));

    match a.step(CommitEvent::Appended) {
        Directive::Done(r) => assert_eq!(r, CommitReceipt { version: 1, adds: 1, retries: 0 }),
        other => panic!("expected done, got {:?}", other),
    }
    assert!(matches!(b.step(CommitEvent::Rejected), Directive::Observe));
    assert_eq!(b.phase(), Phase::Validating);
    let (vb, actions_b) = expect_append(b.step(CommitEvent::Observed(log.state().unwrap())));
    assert_eq!(vb, 2);
    assert_eq!(log.try_append(vb, actions_b), AppendOutcome::Appended);
    match b.step(CommitEvent::Appended) {
        Directive::Done(r) => assert_eq!(r, CommitReceipt { version: 2, adds: 1, retries: 1 }),
        other => panic!("expected done, got {:?}", other),
    }

    let last = log.state().unwrap();
    assert_eq!(last.version(), 2);
    let names: Vec<String> =
        (0..last.schema().len()).map(|i| last.schema().column(i).name.clone()).collect();
    assert_eq!(names, vec!["id", "a", "b"]);
    assert_eq!(last.files().len(), 2);
    assert_eq!(last.files()[0].writer, 1);
    assert_eq!(last.files()[1].writer, 2);
}

#[test]
fn retries_are_bounded() {
    let (log, state) = table();
    let mut c = CommitCoordinator::new(plan_for(&state, "a", ColumnType::Long, 1), &state, 1);
    c.step(CommitEvent::Start);
    expect_append(c.step(CommitEvent::Observed(log.state().unwrap())));
    assert!(matches!(c.step(CommitEvent::Rejected), Directive::Observe));
    expect_append(c.step(CommitEvent::Observed(log.state().unwrap())));
    assert!(matches!(c.step(CommitEvent::Rejected), Directive::Failed(AbortReason::Exhausted)));
    assert_eq!(c.phase(), Phase::Aborted(AbortReason::Exhausted));
    assert!(matches!(c.step(CommitEvent::Appended), Directive::Failed(AbortReason::Exhausted)));
    assert_eq!(
        error_of(AbortReason::Exhausted, 1),
        TableError::CommitExhaustedError { retries: 1 }
    );
    assert_eq!(error_of(AbortReason::Conflict, 1), TableError::ConflictError);
}

#[test]
fn no_retries_means_the_first_refusal_ends_the_commit() {
    let (log, state) = table();
    let mut c = CommitCoordinator::new(plan_for(&state, "a", ColumnType::Long, 1), &state, 0);
    c.step(CommitEvent::Start);
    expect_append(c.step(CommitEvent::Observed(log.state().unwrap())));
    assert!(matches!(c.step(CommitEvent::Rejected), Directive::Failed(AbortReason::Exhausted)));
}

#[test]
fn revalidation_aborts_on_an_incompatible_schema() {
    let (mut log, state) = table();
    let mut a = CommitCoordinator::new(plan_for(&state, "x", ColumnType::Long, 1), &state, 3);
    let plan_b = plan_for(&state, "x", ColumnType::Boolean, 2);
    a.step(CommitEvent::Start);
    let (v, actions) = expect_append(a.step(CommitEvent::Observed(log.state().unwrap())));
    log.try_append(v, actions);
    a.step(CommitEvent::Appended);

    let mut b = CommitCoordinator::new(plan_b, &state, 3);
    assert!(matches!(b.step(CommitEvent::Start), Directive::Observe));
    let d = b.step(CommitEvent::Observed(log.state().unwrap()));
    assert!(matches!(d, Directive::Failed(AbortReason::Conflict)));
    assert_eq!(b.phase(), Phase::Aborted(AbortReason::Conflict));
    assert_eq!(log.version_count(), 2);
}

#[test]
fn candidate_sets_the_schema_only_when_it_changes() {
    let (log, state) = table();
    let same = RowBatch::new(
        schema_of(&[("id", ColumnType::Integer)]),
        vec![vec![Value::Integer(5)]],
    )
    .unwrap();
    let plan = ingest(&state, &vec![same], 9).unwrap().plan;
    let mut c = CommitCoordinator::new(plan, &state, 3);
    c.step(CommitEvent::Start);
    let (version, actions) = expect_append(c.step(CommitEvent::Observed(log.state().unwrap())));
    assert_eq!(version, 1);
    assert_eq!(actions.len(), 1);
    assert!(matches!(actions[0], LogAction::AddFile(_)));
}

#[test]
fn commit_advances_the_version_by_one() {
    let (mut log, state) = table();
    let r1 = commit(&mut log, plan_for(&state, "a", ColumnType::Long, 1), &state, 3).unwrap();
    assert_eq!(r1.version, 1);
    let seen = log.state().unwrap();
    let r2 = commit(&mut log, plan_for(&seen, "b", ColumnType::Long, 2), &seen, 3).unwrap();
    assert_eq!(r2.version, 2);
    let r3 = commit(&mut log, plan_for(&state, "c", ColumnType::Long, 3), &state, 3).unwrap();
    assert_eq!(r3, CommitReceipt { version: 3, adds: 1, retries: 0 });
    assert_eq!(log.latest_version(), Some(3));
    let last = log.state().unwrap();
    assert_eq!(last.schema().len(), 4);
    assert_eq!(last.files().len(), 3);
}

#[test]
fn failed_commit_leaves_the_table_as_it_was() {
    let (mut log, state) = table();
    commit(&mut log, plan_for(&state, "x", ColumnType::Long, 1), &state, 3).unwrap();
    let before = log.state().unwrap();
    let stale = plan_for(&state, "x", ColumnType::Boolean, 2);
    let err = commit(&mut log, stale, &state, 3).unwrap_err();
    assert_eq!(err, TableError::ConflictError);
    assert_eq!(log.version_count(), 2);
    let after = log.state().unwrap();
    assert!(after.same_as(&before));
    assert_eq!(after.files().len(), 1);
}

#[test]
fn commit_to_a_log_without_a_table_fails() {
    let (_log, state) = table();
    let mut empty = LogStore::new();
    let err = commit(&mut empty, plan_for(&state, "a", ColumnType::Long, 1), &state, 3)
        .unwrap_err();
    assert_eq!(err, TableError::TableLocationError);
    assert_eq!(empty.version_count(), 0);
}
