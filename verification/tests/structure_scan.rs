//! The structure summarizer on built workbooks.

use excel_parser::{get_structure, NormalizedValue, RowRecord, Sheet, Workbook};

#[test]
fn empty_sheet_reports_zero_rows_and_no_headers() {
    let wb = Workbook {
        sheets: vec![Sheet { name: String::from("Empty"), rows: Vec::new() }],
    };
    let summaries = get_structure(&wb);
    assert_eq!(summaries.len(), 1);
    assert_eq!(summaries[0].name, "Empty");
    assert_eq!(summaries[0].row_count, 0);
    assert_eq!(summaries[0].headers, Vec::<String>::new());
}

#[test]
fn headers_come_from_the_first_records_keys() {
    let mut first = RowRecord::new();
    first.insert(String::from("Name"), NormalizedValue::Text(String::from("Alice")));
    first.insert(String::from("Age"), NormalizedValue::Integer(30));
    let mut second = RowRecord::new();
    second.insert(String::from("Name"), NormalizedValue::Text(String::from("Bob")));
    second.insert(String::from("Age"), NormalizedValue::Integer(31));
    second.insert(String::from("City"), NormalizedValue::Text(String::from("Ulm")));
    let wb = Workbook {
        sheets: vec![Sheet { name: String::from("People"), rows: vec![first, second] }],
    };
    let summaries = get_structure(&wb);
    assert_eq!(summaries.len(), 1);
    assert_eq!(summaries[0].row_count, 2);
    // The headers follow the first record's keys even though a later row
    // has more columns.
    assert_eq!(summaries[0].headers, vec![String::from("Name"), String::from("Age")]);
}

#[test]
fn summaries_keep_sheet_order() {
    let mut rec = RowRecord::new();
    rec.insert(String::from("K"), NormalizedValue::Integer(1));
    let wb = Workbook {
        sheets: vec![
            Sheet { name: String::from("B"), rows: vec![rec] },
            Sheet { name: String::from("A"), rows: Vec::new() },
        ],
    };
    let summaries = get_structure(&wb);
    assert_eq!(summaries.len(), 2);
    assert_eq!(summaries[0].name, "B");
    assert_eq!(summaries[0].row_count, 1);
    assert_eq!(summaries[0].headers, vec![String::from("K")]);
    assert_eq!(summaries[1].name, "A");
    assert_eq!(summaries[1].row_count, 0);
}
