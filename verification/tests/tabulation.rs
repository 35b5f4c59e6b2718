//! Tabulation of sheet grids: headers, records, ragged rows.

use excel_parser::{build_record, process_sheet, NormalizedValue, RawCell, RowRecord};

fn text(s: &str) -> RawCell {
    RawCell::Text(String::from(s))
}

#[test]
fn empty_grid_yields_empty_header_and_no_rows() {
    let grid: Vec<Vec<RawCell>> = Vec::new();
    let (headers, rows) = process_sheet(&grid);
    assert_eq!(headers.len(), 0);
    assert_eq!(rows.len(), 0);
}

#[test]
fn header_only_grid_yields_no_rows() {
    let grid = vec![vec![text("Name"), text("Age")]];
    let (headers, rows) = process_sheet(&grid);
    assert_eq!(headers, vec![String::from("Name"), String::from("Age")]);
    assert_eq!(rows.len(), 0);
}

#[test]
fn empty_header_column_is_dropped() {
    let grid = vec![
        vec![text("Name"), text("Age"), text("")],
        vec![text("Alice"), RawCell::Integer(30), text("ignored")],
    ];
    let (headers, rows) = process_sheet(&grid);
    assert_eq!(headers, vec![String::from("Name"), String::from("Age"), String::new()]);
    assert_eq!(rows.len(), 1);
    let rec = &rows[0];
    assert_eq!(rec.len(), 2);
    assert_eq!(
        rec.get(&String::from("Name")),
        Some(&NormalizedValue::Text(String::from("Alice")))
    );
    assert_eq!(rec.get(&String::from("Age")), Some(&NormalizedValue::Integer(30)));
    assert_eq!(rec.get(&String::new()), None);
}

#[test]
fn ragged_short_row_leaves_columns_absent() {
    let grid = vec![
        vec![text("A"), text("B"), text("C")],
        vec![text("x")],
    ];
    let (headers, rows) = process_sheet(&grid);
    let rec = &rows[0];
    assert!(rec.len() <= headers.len());
    assert_eq!(rec.len(), 1);
    assert_eq!(rec.get(&String::from("A")), Some(&NormalizedValue::Text(String::from("x"))));
    assert_eq!(rec.get(&String::from("B")), None);
    assert_eq!(rec.get(&String::from("C")), None);
}

#[test]
fn extra_cells_beyond_header_are_dropped() {
    let grid = vec![
        vec![text("A")],
        vec![text("x"), text("spill")],
    ];
    let (_headers, rows) = process_sheet(&grid);
    let rec = &rows[0];
    assert_eq!(rec.len(), 1);
    assert_eq!(rec.get(&String::from("A")), Some(&NormalizedValue::Text(String::from("x"))));
}

#[test]
fn header_cells_are_rendered_to_text() {
    let grid = vec![
        vec![RawCell::Integer(7), RawCell::Boolean(true), RawCell::Empty],
        vec![text("a"), text("b"), text("c")],
    ];
    let (headers, rows) = process_sheet(&grid);
    assert_eq!(headers, vec![String::from("7"), String::from("true"), String::new()]);
    let rec = &rows[0];
    assert_eq!(rec.len(), 2);
    assert_eq!(rec.get(&String::from("7")), Some(&NormalizedValue::Text(String::from("a"))));
    assert_eq!(
        rec.get(&String::from("true")),
        Some(&NormalizedValue::Text(String::from("b")))
    );
}

#[test]
fn empty_and_error_cells_become_explicit_nulls() {
    let grid = vec![
        vec![text("A"), text("B")],
        vec![RawCell::Empty, RawCell::Error],
    ];
    let (_headers, rows) = process_sheet(&grid);
    let rec = &rows[0];
    assert_eq!(rec.get(&String::from("A")), Some(&NormalizedValue::Null));
    assert_eq!(rec.get(&String::from("B")), Some(&NormalizedValue::Null));
}

#[test]
fn duplicate_header_keeps_first_position_last_value() {
    let headers = vec![String::from("K"), String::from("L"), String::from("K")];
    let row = vec![RawCell::Integer(1), RawCell::Integer(2), RawCell::Integer(3)];
    let rec = build_record(&headers, &row);
    assert_eq!(rec.len(), 2);
    assert_eq!(rec.key_at(0), &String::from("K"));
    assert_eq!(rec.key_at(1), &String::from("L"));
    assert_eq!(rec.get(&String::from("K")), Some(&NormalizedValue::Integer(3)));
    assert_eq!(rec.get(&String::from("L")), Some(&NormalizedValue::Integer(2)));
}

#[test]
fn record_insert_and_get() {
    let mut rec = RowRecord::new();
    assert_eq!(rec.len(), 0);
    rec.insert(String::from("a"), NormalizedValue::Integer(1));
    rec.insert(String::from("b"), NormalizedValue::Integer(2));
    rec.insert(String::from("a"), NormalizedValue::Integer(9));
    assert_eq!(rec.len(), 2);
    assert_eq!(rec.keys(), vec![String::from("a"), String::from("b")]);
    assert_eq!(rec.get(&String::from("a")), Some(&NormalizedValue::Integer(9)));
    assert_eq!(rec.get(&String::from("missing")), None);
}
