//! The question extractor: a pure scan of a workbook for cells whose
//! rendered text looks like a question, in sheet, then row, then column
//! order.

use vstd::prelude::*;
use crate::cell::{spec_render_value, render_value};
use crate::record::RecordV;
use crate::text::{is_question, spec_is_question};
use crate::workbook::{SheetV, Workbook};

verus! {

/// One matching cell: where it was found and its rendered text.
#[derive(Clone, Debug, PartialEq, Eq)]
pub struct QuestionHit {
    pub sheet: String,
    pub row: usize,
    pub column: String,
    pub text: String,
}

/// Spec-level model of a hit.
pub ghost struct QuestionHitV {
    pub sheet: Seq<char>,
    pub row: int,
    pub column: Seq<char>,
    pub text: Seq<char>,
}

impl View for QuestionHit {
    type V = QuestionHitV;

    open spec fn view(&self) -> QuestionHitV {
        QuestionHitV {
            sheet: self.sheet@,
            row: self.row as int,
            column: self.column@,
            text: self.text@,
        }
    }
}

impl DeepView for QuestionHit {
    type V = QuestionHitV;

    open spec fn deep_view(&self) -> QuestionHitV {
        self.view()
    }
}

/// Hits of one record, scanning its first `n` entries in entry order.
pub open spec fn rec_hits_upto(sheet: Seq<char>, row: int, rec: RecordV, n: int) -> Seq<
    QuestionHitV,
>
    decreases n,
{
    if n <= 0 {
        Seq::empty()
    } else {
        let prev = rec_hits_upto(sheet, row, rec, n - 1);
        let text = spec_render_value(rec[n - 1].1);
        if spec_is_question(text) {
            prev.push(QuestionHitV { sheet, row, column: rec[n - 1].0, text })
        } else {
            prev
        }
    }
}

/// Hits of one record.
pub open spec fn rec_hits(sheet: Seq<char>, row: int, rec: RecordV) -> Seq<QuestionHitV> {
    rec_hits_upto(sheet, row, rec, rec.len() as int)
}

/// Hits of the first `n` rows of one sheet, in row order.
pub open spec fn sheet_hits_upto(sheet: Seq<char>, rows: Seq<RecordV>, n: int) -> Seq<
    QuestionHitV,
>
    decreases n,
{
    if n <= 0 {
        Seq::empty()
    } else {
        sheet_hits_upto(sheet, rows, n - 1) + rec_hits(sheet, n - 1, rows[n - 1])
    }
}

/// Hits of one sheet.
pub open spec fn sheet_hits(sheet: Seq<char>, rows: Seq<RecordV>) -> Seq<QuestionHitV> {
    sheet_hits_upto(sheet, rows, rows.len() as int)
}

/// Hits of the first `n` sheets of a workbook, in sheet order.
pub open spec fn wb_hits_upto(w: Seq<SheetV>, n: int) -> Seq<QuestionHitV>
    decreases n,
{
    if n <= 0 {
        Seq::empty()
    } else {
        wb_hits_upto(w, n - 1) + sheet_hits(w[n - 1].name, w[n - 1].rows)
    }
}

/// All question hits of a workbook, in sheet, then row, then column order.
pub open spec fn spec_questions(w: Seq<SheetV>) -> Seq<QuestionHitV> {
    wb_hits_upto(w, w.len() as int)
}

/// Scan a workbook for question cells; a pure scan with no failure path.
pub fn extract_questions(wb: &Workbook) -> (r: Vec<QuestionHit>)
    ensures
        r.deep_view() == spec_questions(wb@),
{
    let mut r: Vec<QuestionHit> = Vec::new();
    let ns = wb.sheets.len();
    let mut s: usize = 0;
    while s < ns
        invariant
            s <= ns,
            ns == wb.sheets@.len(),
            r.deep_view() =~= wb_hits_upto(wb@, s as int),
        decreases ns - s,
    {
        let sheet = &wb.sheets[s];
        let nr = sheet.rows.len();
        let mut i: usize = 0;
        proof {
            assert(wb@[s as int] == wb.sheets@[s as int]@);
        }
        while i < nr
            invariant
                i <= nr,
                s < ns,
                ns == wb.sheets@.len(),
                nr == sheet.rows@.len(),
                sheet == &wb.sheets@[s as int],
                wb@[s as int] == wb.sheets@[s as int]@,
                r.deep_view() =~= wb_hits_upto(wb@, s as int) + sheet_hits_upto(
                    sheet@.name,
                    sheet@.rows,
                    i as int,
                ),
            decreases nr - i,
        {
            let rec = &sheet.rows[i];
            let ne = rec.len();
            let mut e: usize = 0;
            proof {
                assert(sheet@.rows[i as int] == sheet.rows@[i as int].deep_view());
            }
            while e < ne
                invariant
                    e <= ne,
                    i < nr,
                    s < ns,
                    ns == wb.sheets@.len(),
                    nr == sheet.rows@.len(),
                    ne == rec@.len(),
                    sheet == &wb.sheets@[s as int],
                    wb@[s as int] == wb.sheets@[s as int]@,
                    rec == &sheet.rows@[i as int],
                    sheet@.rows[i as int] == rec.deep_view(),
                    r.deep_view() =~= wb_hits_upto(wb@, s as int) + sheet_hits_upto(
                        sheet@.name,
                        sheet@.rows,
                        i as int,
                    ) + rec_hits_upto(sheet@.name, i as int, rec@, e as int),
                decreases ne - e,
            {
                let text = render_value(rec.value_at(e));
                if is_question(&text) {
                    let hit = QuestionHit {
                        sheet: sheet.name.clone(),
                        row: i,
                        column: rec.key_at(e).clone(),
                        text,
                    };
                    let ghost pre = r.deep_view();
                    r.push(hit);
                    proof {
                        assert(r.deep_view() =~= pre.push(hit@));
                    }
                }
                e = e + 1;
            }
            proof {
                assert(rec_hits(sheet@.name, i as int, rec@) == rec_hits_upto(
                    sheet@.name,
                    i as int,
                    rec@,
                    rec@.len() as int,
                ));
                assert(sheet_hits_upto(sheet@.name, sheet@.rows, i + 1) == sheet_hits_upto(
                    sheet@.name,
                    sheet@.rows,
                    i as int,
                ) + rec_hits(sheet@.name, i as int, sheet@.rows[i as int]));
            }
            i = i + 1;
        }
        proof {
            assert(sheet_hits(sheet@.name, sheet@.rows) == sheet_hits_upto(
                sheet@.name,
                sheet@.rows,
                sheet@.rows.len() as int,
            ));
            assert(wb_hits_upto(wb@, s + 1) == wb_hits_upto(wb@, s as int) + sheet_hits(
                wb@[s as int].name,
                wb@[s as int].rows,
            ));
        }
        s = s + 1;
    }
    r
}

} // verus!
