//! The workbook: named sheets of row records, and the loader that decodes
//! raw document bytes into one.
//!
//! The container decoding itself is delegated to the external spreadsheet
//! library behind a few trusted declarations; every step after it — header
//! extraction, record building, error mapping — is verified.

use vstd::prelude::*;
use crate::cell::{RawCell, RawCellV};
use crate::record::{RecordV, RowRecord, record_distinct};
use crate::tabulate::{process_sheet, spec_tabulate};
use vstd::string::StringExecFns;

verus! {

/// One sheet: its name and its data rows, in container order.
#[derive(Debug)]
pub struct Sheet {
    pub name: String,
    pub rows: Vec<RowRecord>,
}

/// Spec-level model of a sheet.
pub ghost struct SheetV {
    pub name: Seq<char>,
    pub rows: Seq<RecordV>,
}

impl View for Sheet {
    type V = SheetV;

    open spec fn view(&self) -> SheetV {
        SheetV { name: self.name@, rows: self.rows.deep_view() }
    }
}

impl DeepView for Sheet {
    type V = SheetV;

    open spec fn deep_view(&self) -> SheetV {
        self.view()
    }
}

/// A parsed workbook: its sheets in container order.
#[derive(Debug)]
pub struct Workbook {
    pub sheets: Vec<Sheet>,
}

impl View for Workbook {
    type V = Seq<SheetV>;

    open spec fn view(&self) -> Seq<SheetV> {
        self.sheets.deep_view()
    }
}

/// Every record of every sheet holds each key at most once.
pub open spec fn wb_wf(w: Seq<SheetV>) -> bool {
    forall|i: int, j: int|
        0 <= i < w.len() && 0 <= j < w[i].rows.len() ==> record_distinct(
            #[trigger] w[i].rows[j],
        )
}

/// Tabulate a sequence of named grids into a workbook, sheet by sheet in
/// the given order.
pub fn tabulate_workbook(named: Vec<(String, Vec<Vec<RawCell>>)>) -> (wb: Workbook)
    ensures
        wb@.len() == named@.len(),
        forall|i: int|
            0 <= i < named@.len() ==> (#[trigger] wb@[i]).name == named@[i].0@ && wb@[i].rows
                == spec_tabulate(named@[i].1.deep_view()).1,
        wb_wf(wb@),
{
    let ghost orig = named@;
    let mut named = named;
    let mut sheets: Vec<Sheet> = Vec::new();
    while named.len() > 0
        invariant
            sheets@.len() + named@.len() == orig.len(),
            forall|i: int|
                0 <= i < named@.len() ==> orig[sheets@.len() + i] == named@[i],
            forall|i: int|
                0 <= i < sheets@.len() ==> (#[trigger] sheets@[i]@).name == orig[i].0@
                    && sheets@[i]@.rows == spec_tabulate(orig[i].1.deep_view()).1,
            forall|i: int, j: int|
                0 <= i < sheets@.len() && 0 <= j < sheets@[i]@.rows.len() ==> record_distinct(
                    #[trigger] sheets@[i]@.rows[j],
                ),
        decreases named@.len(),
    {
        let (name, grid) = named.remove(0);
        proof {
            assert(orig[sheets@.len() as int] == (name, grid));
        }
        let (_headers, rows) = process_sheet(&grid);
        let sheet = Sheet { name, rows };
        sheets.push(sheet);
    }
    let wb = Workbook { sheets };
    proof {
        assert forall|i: int| 0 <= i < orig.len() implies (#[trigger] wb@[i]).name == orig[i].0@
            && wb@[i].rows == spec_tabulate(orig[i].1.deep_view()).1 by {
            assert(wb@[i] == wb.sheets@[i].deep_view());
        }
    }
    wb
}

/// The external spreadsheet reader, opaque to verification.
#[verifier::external_type_specification]
#[verifier::external_body]
#[verifier::reject_recursive_types(RS)]
pub struct ExXlsx<RS>(calamine::Xlsx<RS>);

/// The external reader's error type, opaque to verification.
#[verifier::external_type_specification]
#[verifier::external_body]
pub struct ExXlsxError(calamine::XlsxError);

/// One decoded cell of the external reader, opaque to verification.
#[verifier::external_type_specification]
#[verifier::external_body]
pub struct ExData(calamine::Data);

/// An in-memory byte reader of std, opaque to verification.
#[verifier::external_type_specification]
#[verifier::external_body]
#[verifier::reject_recursive_types(T)]
pub struct ExCursor<T>(std::io::Cursor<T>);

/// Errors at the workbook boundary: the bytes are not an openable
/// container, a named sheet's grid could not be read, or the decoded
/// content is otherwise inconsistent.
#[derive(Debug)]
pub enum ExcelParserError {
    OpenError(String),
    SheetNotFound(String),
    ParseError(String),
}

/// The message text of an error.
pub open spec fn spec_error_message(e: &ExcelParserError) -> Seq<char> {
    match e {
        ExcelParserError::OpenError(m) => "Failed to open Excel file: "@ + m@,
        ExcelParserError::SheetNotFound(m) => "Sheet not found: "@ + m@,
        ExcelParserError::ParseError(m) => "Failed to parse Excel content: "@ + m@,
    }
}

impl ExcelParserError {
    /// Render the error as text.
    pub fn message(&self) -> (r: String)
        ensures
            r@ == spec_error_message(self),
    {
        match self {
            ExcelParserError::OpenError(m) => String::from_str("Failed to open Excel file: ")
                .concat(m.as_str()),
            ExcelParserError::SheetNotFound(m) => String::from_str("Sheet not found: ").concat(
                m.as_str(),
            ),
            ExcelParserError::ParseError(m) => String::from_str(
                "Failed to parse Excel content: ",
            ).concat(m.as_str()),
        }
    }
}

/// Whether the external reader can open the byte sequence as a workbook
/// container.  Decoding an in-memory buffer depends on the bytes alone, so
/// the outcome of `Reader::new` can be named as a function of them.
pub uninterp spec fn xlsx_open_ok(bytes: Seq<u8>) -> bool;

/// The sheet names of the container opened from the byte sequence, in
/// container order: what `Reader::sheet_names` yields for those bytes.
pub uninterp spec fn xlsx_names(bytes: Seq<u8>) -> Seq<Seq<char>>;

/// The decoded cell grid of the sheet with the given name in the container
/// opened from the byte sequence, or `None` when that sheet's grid cannot
/// be read: what `Reader::worksheet_range` yields for those bytes and that
/// name, cell by cell in the library's own terms.
pub uninterp spec fn xlsx_grid(bytes: Seq<u8>, name: Seq<char>) -> Option<Seq<Seq<RawCellV>>>;

/// The byte sequence an open reader was decoded from; ties the opaque
/// reader value back to its input so the names above can speak of it.
pub uninterp spec fn xlsx_bytes(wb: calamine::Xlsx<std::io::Cursor<Vec<u8>>>) -> Seq<u8>;

/// Relies on `Reader::new` for `Xlsx`: decodes an in-memory workbook
/// container, failing exactly when the bytes are not an openable
/// container; the outcome depends on the bytes alone.
#[verifier::external_body]
fn open_xlsx(bytes: &[u8]) -> (r: Result<
    calamine::Xlsx<std::io::Cursor<Vec<u8>>>,
    calamine::XlsxError,
>)
    ensures
        r is Ok <==> xlsx_open_ok(bytes@),
        r matches Ok(wb) ==> xlsx_bytes(wb) == bytes@,
{
    calamine::Reader::new(std::io::Cursor::new(bytes.to_vec()))
}

/// Relies on `Reader::sheet_names`: the sheet names of the decoded
/// container, in container order, a function of the opened bytes alone.
#[verifier::external_body]
fn sheet_names_of(wb: &calamine::Xlsx<std::io::Cursor<Vec<u8>>>) -> (r: Vec<String>)
    ensures
        r.deep_view() == xlsx_names(xlsx_bytes(*wb)),
{
    calamine::Reader::sheet_names(wb)
}

/// Relies on `Reader::worksheet_range`: the named sheet's rectangular cell
/// grid, or the reader's error when it cannot be read.  The returned range
/// is flattened row by row via `Range::rows` and converted cell by cell;
/// for a container opened from given bytes the outcome depends on those
/// bytes and the name alone, and reading leaves the reader on the same
/// container.
#[verifier::external_body]
fn worksheet_grid(wb: &mut calamine::Xlsx<std::io::Cursor<Vec<u8>>>, name: &str) -> (r: Result<
    Vec<Vec<RawCell>>,
    calamine::XlsxError,
>)
    ensures
        xlsx_bytes(*final(wb)) == xlsx_bytes(*old(wb)),
        r is Ok <==> xlsx_grid(xlsx_bytes(*old(wb)), name@) is Some,
        r matches Ok(g) ==> g.deep_view() == xlsx_grid(xlsx_bytes(*old(wb)), name@)->Some_0,
{
    match calamine::Reader::worksheet_range(wb, name) {
        Ok(range) => Ok(range.rows().map(|row| row.iter().map(raw_of_data).collect()).collect()),
        Err(e) => Err(e),
    }
}

/// Relies on the reader's `Data` cell enum: each variant is carried over
/// one for one, floating-point and date cells as their canonical text
/// rendering.
#[verifier::external_body]
fn raw_of_data(c: &calamine::Data) -> RawCell {
    match c {
        calamine::Data::String(s) => RawCell::Text(s.clone()),
        calamine::Data::Int(i) => RawCell::Integer(*i),
        calamine::Data::Float(f) => RawCell::Float(f.to_string()),
        calamine::Data::Bool(b) => RawCell::Boolean(*b),
        calamine::Data::DateTime(d) => RawCell::Timestamp(d.as_f64().to_string()),
        calamine::Data::DateTimeIso(s) => RawCell::Timestamp(s.clone()),
        calamine::Data::DurationIso(s) => RawCell::Timestamp(s.clone()),
        calamine::Data::Empty => RawCell::Empty,
        calamine::Data::Error(_) => RawCell::Error,
    }
}

/// Relies on the reader error's `Display` impl: its message text.
#[verifier::external_body]
fn xlsx_error_text(e: &calamine::XlsxError) -> String {
    format!("{}", e)
}

/// Decode raw document bytes into a workbook: open the container, read
/// every sheet's grid in container order, and tabulate each one.  Exactly
/// the unopenable byte sequences give an `OpenError`; a container whose
/// every sheet is readable gives the complete workbook, every sheet
/// tabulated in container order; the first unreadable sheet gives a
/// `SheetNotFound` naming it.  Either the whole workbook is produced or
/// the call fails, never a partial one, and the outcome is a function of
/// the bytes.
pub fn parse_excel(content: &[u8]) -> (r: Result<Workbook, ExcelParserError>)
    ensures
        (r matches Err(ExcelParserError::OpenError(_))) <==> !xlsx_open_ok(content@),
        !(r matches Err(ExcelParserError::ParseError(_))),
        xlsx_open_ok(content@) && (forall|i: int|
            0 <= i < xlsx_names(content@).len() ==> (#[trigger] xlsx_grid(
                content@,
                xlsx_names(content@)[i],
            )) is Some) ==> r is Ok,
        r matches Ok(wb) ==> {
            let names = xlsx_names(content@);
            &&& xlsx_open_ok(content@)
            &&& wb@.len() == names.len()
            &&& forall|i: int|
                0 <= i < names.len() ==> (#[trigger] xlsx_grid(content@, names[i])) is Some
            &&& forall|i: int|
                0 <= i < names.len() ==> (#[trigger] wb@[i]).name == names[i] && wb@[i].rows
                    == spec_tabulate(xlsx_grid(content@, names[i])->Some_0).1
            &&& wb_wf(wb@)
        },
        r matches Err(ExcelParserError::SheetNotFound(s)) ==> {
            let names = xlsx_names(content@);
            &&& xlsx_open_ok(content@)
            &&& exists|i: int|
                0 <= i < names.len() && names[i] == s@ && (#[trigger] xlsx_grid(
                    content@,
                    names[i],
                )) is None && (forall|j: int|
                    0 <= j < i ==> (#[trigger] xlsx_grid(content@, names[j])) is Some)
        },
{
    let mut reader = match open_xlsx(content) {
        Ok(rd) => rd,
        Err(e) => {
            return Err(ExcelParserError::OpenError(xlsx_error_text(&e)));
        },
    };
    let names = sheet_names_of(&reader);
    let ghost names_v = xlsx_names(content@);
    let mut named: Vec<(String, Vec<Vec<RawCell>>)> = Vec::new();
    let n = names.len();
    let mut i: usize = 0;
    while i < n
        invariant
            i <= n,
            n == names@.len(),
            xlsx_open_ok(content@),
            xlsx_bytes(reader) == content@,
            names.deep_view() == names_v,
            names_v == xlsx_names(content@),
            named@.len() == i,
            forall|j: int| 0 <= j < i ==> (#[trigger] xlsx_grid(content@, names_v[j])) is Some,
            forall|j: int|
                0 <= j < i ==> (#[trigger] named@[j]).0@ == names_v[j]
                    && named@[j].1.deep_view() == xlsx_grid(content@, names_v[j])->Some_0,
        decreases n - i,
    {
        let name = names[i].clone();
        proof {
            assert(name@ == names.deep_view()[i as int]);
        }
        let grid = match worksheet_grid(&mut reader, name.as_str()) {
            Ok(g) => g,
            Err(_) => {
                return Err(ExcelParserError::SheetNotFound(name));
            },
        };
        named.push((name, grid));
        i = i + 1;
    }
    let wb = tabulate_workbook(named);
    proof {
        assert forall|t: int| 0 <= t < names_v.len() implies (#[trigger] wb@[t]).name == names_v[t]
            && wb@[t].rows == spec_tabulate(xlsx_grid(content@, names_v[t])->Some_0).1 by {
            assert(wb@[t].rows == spec_tabulate(named@[t].1.deep_view()).1);
        }
    }
    Ok(wb)
}

} // verus!
