//! Parsing raw document bytes end to end.

use std::io::{Cursor, Write};

use excel_parser::{
    extract_questions, get_structure, parse_excel, ExcelParserError, NormalizedValue,
};
use zip::write::SimpleFileOptions;
use zip::ZipWriter;

const CONTENT_TYPES: &str = "<?xml version=\"1.0\" encoding=\"UTF-8\" standalone=\"yes\"?><Types xmlns=\"http://schemas.openxmlformats.org/package/2006/content-types\"><Default Extension=\"rels\" ContentType=\"application/vnd.openxmlformats-package.relationships+xml\"/><Default Extension=\"xml\" ContentType=\"application/xml\"/><Override PartName=\"/xl/workbook.xml\" ContentType=\"application/vnd.openxmlformats-officedocument.spreadsheetml.sheet.main+xml\"/><Override PartName=\"/xl/worksheets/sheet1.xml\" ContentType=\"application/vnd.openxmlformats-officedocument.spreadsheetml.worksheet+xml\"/></Types>";

const ROOT_RELS: &str = "<?xml version=\"1.0\" encoding=\"UTF-8\" standalone=\"yes\"?><Relationships xmlns=\"http://schemas.openxmlformats.org/package/2006/relationships\"><Relationship Id=\"rId1\" Type=\"http://schemas.openxmlformats.org/officeDocument/2006/relationships/officeDocument\" Target=\"xl/workbook.xml\"/></Relationships>";

const WORKBOOK: &str = "<?xml version=\"1.0\" encoding=\"UTF-8\" standalone=\"yes\"?><workbook xmlns=\"http://schemas.openxmlformats.org/spreadsheetml/2006/main\" xmlns:r=\"http://schemas.openxmlformats.org/officeDocument/2006/relationships\"><sheets><sheet name=\"Survey\" sheetId=\"1\" r:id=\"rId1\"/></sheets></workbook>";

const WORKBOOK_RELS: &str = "<?xml version=\"1.0\" encoding=\"UTF-8\" standalone=\"yes\"?><Relationships xmlns=\"http://schemas.openxmlformats.org/package/2006/relationships\"><Relationship Id=\"rId1\" Type=\"http://schemas.openxmlformats.org/officeDocument/2006/relationships/worksheet\" Target=\"worksheets/sheet1.xml\"/></Relationships>";

const SHEET1: &str = "<?xml version=\"1.0\" encoding=\"UTF-8\" standalone=\"yes\"?><worksheet xmlns=\"http://schemas.openxmlformats.org/spreadsheetml/2006/main\"><sheetData><row r=\"1\"><c r=\"A1\" t=\"inlineStr\"><is><t>Name</t></is></c><c r=\"B1\" t=\"inlineStr\"><is><t>Question</t></is></c></row><row r=\"2\"><c r=\"A2\" t=\"inlineStr\"><is><t>Alice</t></is></c><c r=\"B2\" t=\"inlineStr\"><is><t>Are you ready?</t></is></c></row><row r=\"3\"><c r=\"A3\"><v>30</v></c></row></sheetData></worksheet>";

fn minimal_xlsx() -> Vec<u8> {
    let mut zw = ZipWriter::new(Cursor::new(Vec::new()));
    let opts = SimpleFileOptions::default();
    let files = [
        ("[Content_Types].xml", CONTENT_TYPES),
        ("_rels/.rels", ROOT_RELS),
        ("xl/workbook.xml", WORKBOOK),
        ("xl/_rels/workbook.xml.rels", WORKBOOK_RELS),
        ("xl/worksheets/sheet1.xml", SHEET1),
    ];
    for (name, body) in files {
        zw.start_file(name, opts).expect("start zip entry");
        zw.write_all(body.as_bytes()).expect("write zip entry");
    }
    zw.finish().expect("finish zip").into_inner()
}

/// Like `minimal_xlsx`, but the archive lacks the worksheet file its
/// workbook metadata points at.
fn xlsx_with_missing_sheet() -> Vec<u8> {
    let mut zw = ZipWriter::new(Cursor::new(Vec::new()));
    let opts = SimpleFileOptions::default();
    let files = [
        ("[Content_Types].xml", CONTENT_TYPES),
        ("_rels/.rels", ROOT_RELS),
        ("xl/workbook.xml", WORKBOOK),
        ("xl/_rels/workbook.xml.rels", WORKBOOK_RELS),
    ];
    for (name, body) in files {
        zw.start_file(name, opts).expect("start zip entry");
        zw.write_all(body.as_bytes()).expect("write zip entry");
    }
    zw.finish().expect("finish zip").into_inner()
}

#[test]
fn a_sheet_without_a_grid_names_the_sheet_in_its_error() {
    let bytes = xlsx_with_missing_sheet();
    match parse_excel(&bytes) {
        Err(ExcelParserError::SheetNotFound(name)) => assert_eq!(name, "Survey"),
        other => panic!("expected a sheet-read failure, got {:?}", other),
    }
}

#[test]
fn invalid_bytes_give_a_decode_error() {
    let r = parse_excel(b"this is not a spreadsheet container");
    assert!(matches!(r, Err(ExcelParserError::OpenError(_))));
}

#[test]
fn empty_bytes_give_a_decode_error() {
    let r = parse_excel(b"");
    assert!(matches!(r, Err(ExcelParserError::OpenError(_))));
}

#[test]
fn error_messages_name_their_cause() {
    let e = ExcelParserError::OpenError(String::from("bad zip"));
    assert_eq!(e.message(), "Failed to open Excel file: bad zip");
    let e = ExcelParserError::SheetNotFound(String::from("Survey"));
    assert_eq!(e.message(), "Sheet not found: Survey");
    let e = ExcelParserError::ParseError(String::from("odd"));
    assert_eq!(e.message(), "Failed to parse Excel content: odd");
}

#[test]
fn a_real_container_parses_into_records() {
    let bytes = minimal_xlsx();
    let wb = parse_excel(&bytes).expect("container should parse");
    assert_eq!(wb.sheets.len(), 1);
    assert_eq!(wb.sheets[0].name, "Survey");
    let rows = &wb.sheets[0].rows;
    assert_eq!(rows.len(), 2);
    assert_eq!(
        rows[0].get(&String::from("Name")),
        Some(&NormalizedValue::Text(String::from("Alice")))
    );
    assert_eq!(
        rows[0].get(&String::from("Question")),
        Some(&NormalizedValue::Text(String::from("Are you ready?")))
    );
    // The bare number in the third source row decodes as a numeric cell.
    match rows[1].get(&String::from("Name")) {
        Some(NormalizedValue::Float(s)) => assert_eq!(s, "30"),
        Some(NormalizedValue::Integer(i)) => assert_eq!(*i, 30),
        other => panic!("unexpected cell for Name: {:?}", other),
    }
    // The decoded grid is rectangular: the missing trailing cell comes back
    // as an empty cell and so coerces to an explicit null.
    assert_eq!(rows[1].get(&String::from("Question")), Some(&NormalizedValue::Null));
}

#[test]
fn derived_views_work_on_a_parsed_container() {
    let bytes = minimal_xlsx();
    let wb = parse_excel(&bytes).expect("container should parse");
    let structure = get_structure(&wb);
    assert_eq!(structure.len(), 1);
    assert_eq!(structure[0].name, "Survey");
    assert_eq!(structure[0].row_count, 2);
    assert_eq!(
        structure[0].headers,
        vec![String::from("Name"), String::from("Question")]
    );
    let hits = extract_questions(&wb);
    assert_eq!(hits.len(), 1);
    assert_eq!(hits[0].sheet, "Survey");
    assert_eq!(hits[0].row, 0);
    assert_eq!(hits[0].column, "Question");
    assert_eq!(hits[0].text, "Are you ready?");
}
