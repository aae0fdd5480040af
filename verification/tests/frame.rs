use machine_learning_with_rust::error::DataError;
use machine_learning_with_rust::frame::{Column, Table};

fn strings(items: &[&str]) -> Vec<String> {
    items.iter().map(|s| s.to_string()).collect()
}

fn numbers(cells: &[Option<u64>]) -> Column {
    Column::Numeric(cells.to_vec())
}

fn words(cells: &[Option<&str>]) -> Column {
    Column::Text(cells.iter().map(|c| c.map(|s| s.to_string())).collect())
}

fn sample() -> Table {
    Table::new(
        strings(&["a", "b", "target"]),
        vec![
            numbers(&[Some(1), Some(2)]),
            numbers(&[Some(3), None]),
            words(&[Some("x"), Some("y")]),
        ],
    )
    .unwrap()
}

#[test]
fn table_reports_its_shape() {
    let table = sample();
    assert_eq!(table.width(), 3);
    assert_eq!(table.height(), 2);
    assert_eq!(table.names(), &strings(&["a", "b", "target"]));
    assert_eq!(table.columns().len(), 3);
    assert_eq!(table.columns()[1], numbers(&[Some(3), None]));
}

#[test]
fn table_without_columns_is_empty() {
    let table = Table::new(vec![], vec![]).unwrap();
    assert_eq!(table.width(), 0);
    assert_eq!(table.height(), 0);
}

#[test]
fn table_rejects_missing_names() {
    let result = Table::new(strings(&["a"]), vec![numbers(&[Some(1)]), numbers(&[Some(2)])]);
    assert_eq!(result, Err(DataError::ShapeMismatch));
}

#[test]
fn table_rejects_columns_of_unequal_length() {
    let result = Table::new(
        strings(&["a", "b"]),
        vec![numbers(&[Some(1), Some(2)]), words(&[Some("x")])],
    );
    assert_eq!(result, Err(DataError::ShapeMismatch));
}

#[test]
fn table_rejects_duplicate_names() {
    let result = Table::new(
        strings(&["a", "b", "a"]),
        vec![numbers(&[Some(1)]), numbers(&[Some(2)]), numbers(&[Some(3)])],
    );
    assert_eq!(result, Err(DataError::Duplicate));
}

#[test]
fn shape_is_checked_before_names() {
    let result = Table::new(
        strings(&["a", "a"]),
        vec![numbers(&[Some(1)]), numbers(&[Some(2), Some(3)])],
    );
    assert_eq!(result, Err(DataError::ShapeMismatch));
}

#[test]
fn position_finds_columns_by_name() {
    let table = sample();
    assert_eq!(table.position("a"), Some(0));
    assert_eq!(table.position("target"), Some(2));
    assert_eq!(table.position("Target"), None);
    assert_eq!(table.position(""), None);
}

#[test]
fn column_returns_the_named_column() {
    let table = sample();
    assert_eq!(table.column("b"), Ok(&numbers(&[Some(3), None])));
    assert_eq!(table.column("target"), Ok(&words(&[Some("x"), Some("y")])));
    assert_eq!(table.column("missing"), Err(DataError::ColumnNotFound));
}

#[test]
fn take_column_removes_exactly_one_column() {
    let (column, rest) = sample().take_column("b").unwrap();
    assert_eq!(column, numbers(&[Some(3), None]));
    assert_eq!(rest.names(), &strings(&["a", "target"]));
    assert_eq!(
        rest.columns(),
        &vec![numbers(&[Some(1), Some(2)]), words(&[Some("x"), Some("y")])]
    );
    assert_eq!(rest.height(), 2);
}

#[test]
fn take_column_fails_on_unknown_name() {
    assert_eq!(sample().take_column("label"), Err(DataError::ColumnNotFound));
}

#[test]
fn taking_the_last_column_keeps_the_rows() {
    let table = Table::new(strings(&["only"]), vec![words(&[Some("x"), None, Some("z")])]).unwrap();
    let (column, rest) = table.take_column("only").unwrap();
    assert_eq!(column.len(), 3);
    assert_eq!(rest.width(), 0);
    assert_eq!(rest.height(), 3);
}

#[test]
fn column_len_counts_missing_cells() {
    assert_eq!(numbers(&[None, None]).len(), 2);
    assert_eq!(words(&[]).len(), 0);
}
