//! The structure summarizer: per-sheet header lists and row counts.
//!
//! Headers are reported from the first row record's keys — the columns that
//! survived empty-header filtering and any raggedness of that first data
//! row — not from the sheet's raw header row.  A sheet whose first data row
//! is short therefore reports a short header list; consumers that rely on
//! that quirk get it unchanged.

use vstd::prelude::*;
use crate::record::record_keys;
use crate::workbook::{SheetV, Workbook};

verus! {

/// The reported shape of one sheet.
#[derive(Clone, Debug, PartialEq, Eq)]
pub struct SheetSummary {
    pub name: String,
    pub row_count: usize,
    pub headers: Vec<String>,
}

/// Spec-level model of one sheet's summary.
pub ghost struct SheetSummaryV {
    pub name: Seq<char>,
    pub row_count: int,
    pub headers: Seq<Seq<char>>,
}

impl View for SheetSummary {
    type V = SheetSummaryV;

    open spec fn view(&self) -> SheetSummaryV {
        SheetSummaryV {
            name: self.name@,
            row_count: self.row_count as int,
            headers: self.headers.deep_view(),
        }
    }
}

impl DeepView for SheetSummary {
    type V = SheetSummaryV;

    open spec fn deep_view(&self) -> SheetSummaryV {
        self.view()
    }
}

/// The summary of one sheet: its data-row count, and the first record's
/// keys as headers — an empty list when the sheet has no data rows.
pub open spec fn spec_sheet_summary(s: SheetV) -> SheetSummaryV {
    SheetSummaryV {
        name: s.name,
        row_count: s.rows.len() as int,
        headers: if s.rows.len() > 0 {
            record_keys(s.rows[0])
        } else {
            Seq::empty()
        },
    }
}

/// The summary of a whole workbook, in sheet order.
pub open spec fn spec_structure(w: Seq<SheetV>) -> Seq<SheetSummaryV> {
    Seq::new(w.len(), |i: int| spec_sheet_summary(w[i]))
}

/// Report each sheet's headers and row count, in sheet order.
pub fn get_structure(wb: &Workbook) -> (r: Vec<SheetSummary>)
    ensures
        r.deep_view() == spec_structure(wb@),
        forall|i: int|
            0 <= i < wb@.len() ==> (#[trigger] r.deep_view()[i]).row_count == wb@[i].rows.len()
                && (wb@[i].rows.len() == 0 ==> r.deep_view()[i].headers.len() == 0),
{
    let ns = wb.sheets.len();
    let mut r: Vec<SheetSummary> = Vec::new();
    let mut s: usize = 0;
    while s < ns
        invariant
            s <= ns,
            ns == wb.sheets@.len(),
            r.deep_view() =~= spec_structure(wb@).take(s as int),
        decreases ns - s,
    {
        let sheet = &wb.sheets[s];
        proof {
            assert(wb@[s as int] == wb.sheets@[s as int]@);
        }
        let headers: Vec<String> = if sheet.rows.len() > 0 {
            proof {
                assert(sheet@.rows[0] == sheet.rows@[0].deep_view());
            }
            sheet.rows[0].keys()
        } else {
            Vec::new()
        };
        let summary = SheetSummary { name: sheet.name.clone(), row_count: sheet.rows.len(), headers };
        let ghost pre = r.deep_view();
        r.push(summary);
        proof {
            assert(summary@.headers =~= spec_sheet_summary(wb@[s as int]).headers);
            assert(summary@ == spec_sheet_summary(wb@[s as int]));
            assert(r.deep_view() =~= pre.push(summary@));
            assert(spec_structure(wb@).take(s + 1) =~= spec_structure(wb@).take(s as int).push(
                spec_sheet_summary(wb@[s as int]),
            ));
        }
        s = s + 1;
    }
    proof {
        assert(spec_structure(wb@).take(ns as int) =~= spec_structure(wb@));
    }
    r
}

} // verus!
