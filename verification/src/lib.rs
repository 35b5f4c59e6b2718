//! Verified core of a spreadsheet-to-records converter.
//!
//! Raw workbook bytes are decoded by an external spreadsheet library into
//! per-sheet grids of raw cells; everything after that point is verified:
//! header extraction, typed row records, question detection and the
//! structural summary.

pub mod cell;
pub mod record;
pub mod text;
pub mod tabulate;
pub mod questions;
pub mod structure;
pub mod workbook;

pub use cell::{coerce, render_raw, render_value, NormalizedValue, RawCell};
pub use questions::{extract_questions, QuestionHit};
pub use record::RowRecord;
pub use structure::{get_structure, SheetSummary};
pub use tabulate::{build_record, process_sheet};
pub use workbook::{parse_excel, tabulate_workbook, ExcelParserError, Sheet, Workbook};
