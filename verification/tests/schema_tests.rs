use bronze_table::customer::CustomerAmount;
use bronze_table::error::TableError;
use bronze_table::schema::{Column, ColumnType, Schema};

fn customer_columns() -> Vec<Column> {
    vec![
        Column::new("id", ColumnType::Integer, false),
        Column::new("name", ColumnType::String, false),
        Column::new("amount", ColumnType::Integer, false),
    ]
}

fn columns_of(s: &Schema) -> Vec<Column> {
    (0..s.len()).map(|i| s.column(i).duplicate()).collect()
}

#[test]
fn declare_keeps_columns_in_order() {
    let s = Schema::declare(customer_columns()).unwrap();
    assert_eq!(s.len(), 3);
    assert_eq!(columns_of(&s), customer_columns());
}

#[test]
fn declare_of_no_columns_is_the_empty_schema() {
    let s = Schema::declare(Vec::new()).unwrap();
    assert_eq!(s.len(), 0);
    assert!(s.same_as(&Schema::empty()));
}

#[test]
fn declare_refuses_a_name_used_twice() {
    let mut cols = customer_columns();
    cols.push(Column::new("name", ColumnType::Long, true));
    let err = Schema::declare(cols).unwrap_err();
    assert_eq!(err, TableError::DuplicateColumn { column: "name".to_string() });
}

#[test]
fn position_of_finds_columns_by_name() {
    let s = Schema::declare(customer_columns()).unwrap();
    assert_eq!(s.position_of("id"), Some(0));
    assert_eq!(s.position_of("amount"), Some(2));
    assert_eq!(s.position_of("half_amount"), None);
    assert_eq!(s.position_of(""), None);
}

#[test]
fn merge_adds_new_columns_behind_and_nullable() {
    let table = Schema::declare(customer_columns()).unwrap();
    let incoming = Schema::declare(vec![
        Column::new("half_amount", ColumnType::Integer, false),
        Column::new("id", ColumnType::Integer, true),
        Column::new("note", ColumnType::String, false),
    ])
    .unwrap();
    let merged = table.merge(&incoming).unwrap();
    let mut want = customer_columns();
    want.push(Column::new("half_amount", ColumnType::Integer, true));
    want.push(Column::new("note", ColumnType::String, true));
    assert_eq!(columns_of(&merged), want);
}

#[test]
fn merge_keeps_the_nullability_of_existing_columns() {
    let table = Schema::declare(customer_columns()).unwrap();
    let incoming = Schema::declare(vec![Column::new("id", ColumnType::Integer, true)]).unwrap();
    let merged = table.merge(&incoming).unwrap();
    assert!(merged.same_as(&table));
    assert!(!merged.column(0).nullable);
}

#[test]
fn merge_reports_the_first_column_of_another_type() {
    let table = Schema::declare(customer_columns()).unwrap();
    let incoming = Schema::declare(vec![
        Column::new("id", ColumnType::Integer, false),
        Column::new("amount", ColumnType::String, false),
        Column::new("name", ColumnType::Long, false),
    ])
    .unwrap();
    let err = table.merge(&incoming).unwrap_err();
    assert_eq!(err, TableError::SchemaConflict { column: "amount".to_string() });
}

#[test]
fn merge_with_itself_changes_nothing() {
    let a = Schema::declare(customer_columns()).unwrap();
    let merged = a.merge(&a).unwrap();
    assert!(merged.same_as(&a));
    assert_eq!(columns_of(&merged), customer_columns());
}

#[test]
fn merging_the_same_schema_again_changes_nothing() {
    let a = Schema::declare(customer_columns()).unwrap();
    let b = Schema::declare(vec![
        Column::new("amount", ColumnType::Integer, true),
        Column::new("half_amount", ColumnType::Integer, false),
    ])
    .unwrap();
    let once = a.merge(&b).unwrap();
    let twice = once.merge(&b).unwrap();
    assert!(twice.same_as(&once));
    assert_eq!(once.len(), 4);
}

#[test]
fn merge_into_the_empty_schema_widens_everything() {
    let b = Schema::declare(customer_columns()).unwrap();
    let merged = Schema::empty().merge(&b).unwrap();
    assert_eq!(merged.len(), 3);
    for i in 0..3 {
        assert!(merged.column(i).nullable);
        assert_eq!(merged.column(i).name, b.column(i).name);
        assert_eq!(merged.column(i).ty, b.column(i).ty);
    }
}

#[test]
fn same_as_tells_schemas_apart() {
    let a = Schema::declare(customer_columns()).unwrap();
    let b = a.duplicate();
    assert!(a.same_as(&b));
    let c = Schema::declare(vec![
        Column::new("id", ColumnType::Integer, false),
        Column::new("name", ColumnType::String, true),
        Column::new("amount", ColumnType::Integer, false),
    ])
    .unwrap();
    assert!(!a.same_as(&c));
    assert!(!a.same_as(&Schema::empty()));
}

#[test]
fn customer_amount_declares_three_columns() {
    assert_eq!(CustomerAmount::columns(), customer_columns());
    let s = CustomerAmount::schema();
    assert_eq!(columns_of(&s), customer_columns());
    assert!(!s.column(0).nullable && !s.column(1).nullable && !s.column(2).nullable);
}
