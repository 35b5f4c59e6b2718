//! The sheet tabulator: from a grid of raw cells to a header row and an
//! ordered sequence of row records.
//!
//! The grid may be ragged: a short data row simply leaves its missing
//! columns out of the record, extra cells beyond the header are dropped,
//! and a column under an empty header name contributes no key at all.

use vstd::prelude::*;
use vstd::string::StrSliceExecFns;
use crate::cell::{RawCell, RawCellV, coerce, render_raw, spec_coerce, spec_render_raw};
use crate::record::{
    lemma_insert_shape, record_distinct, record_has, spec_insert, RecordV, RowRecord,
};

verus! {

/// The header of a grid: the string rendering of every cell of its first
/// row, in column order.
pub open spec fn spec_header(row0: Seq<RawCellV>) -> Seq<Seq<char>> {
    row0.map_values(|c: RawCellV| spec_render_raw(c))
}

/// The record of one data row, built over the first `n` columns in column
/// order: a cell under an empty header name is skipped, any other cell is
/// inserted under its header name.
pub open spec fn spec_record_upto(hdr: Seq<Seq<char>>, row: Seq<RawCellV>, n: int) -> RecordV
    decreases n,
{
    if n <= 0 {
        Seq::empty()
    } else {
        let prev = spec_record_upto(hdr, row, n - 1);
        if hdr[n - 1].len() == 0 {
            prev
        } else {
            spec_insert(prev, hdr[n - 1], spec_coerce(row[n - 1]))
        }
    }
}

/// The record of one data row: columns up to the shorter of the row and the
/// header take part, the rest is dropped.
pub open spec fn spec_record(hdr: Seq<Seq<char>>, row: Seq<RawCellV>) -> RecordV {
    spec_record_upto(hdr, row, if hdr.len() <= row.len() { hdr.len() as int } else { row.len() as int })
}

/// Tabulation of a whole grid: a grid with no rows yields an empty header
/// and no records; otherwise the first row names the columns and every
/// later row becomes one record, in row order.
pub open spec fn spec_tabulate(g: Seq<Seq<RawCellV>>) -> (Seq<Seq<char>>, Seq<RecordV>) {
    if g.len() == 0 {
        (Seq::<Seq<char>>::empty(), Seq::<RecordV>::empty())
    } else {
        let hdr = spec_header(g[0]);
        (hdr, Seq::new((g.len() - 1) as nat, |i: int| spec_record(hdr, g[i + 1])))
    }
}

/// A record never outgrows its header, holds only nonempty header names as
/// keys, and holds each key once.
pub proof fn lemma_record_upto_bounds(hdr: Seq<Seq<char>>, row: Seq<RawCellV>, n: int)
    requires
        n <= hdr.len(),
    ensures
        spec_record_upto(hdr, row, n).len() <= if n >= 0 { n } else { 0 },
        forall|k: Seq<char>|
            record_has(spec_record_upto(hdr, row, n), k) ==> k.len() > 0 && exists|i: int|
                0 <= i < n && hdr[i] == k,
        record_distinct(spec_record_upto(hdr, row, n)),
    decreases n,
{
    if n <= 0 {
    } else {
        lemma_record_upto_bounds(hdr, row, n - 1);
        let prev = spec_record_upto(hdr, row, n - 1);
        if hdr[n - 1].len() == 0 {
        } else {
            lemma_insert_shape(prev, hdr[n - 1], spec_coerce(row[n - 1]));
            let r = spec_record_upto(hdr, row, n);
            assert forall|k: Seq<char>| record_has(r, k) implies k.len() > 0 && exists|i: int|
                0 <= i < n && hdr[i] == k by {
                if k == hdr[n - 1] {
                    assert(0 <= n - 1 < n && hdr[n - 1] == k);
                } else {
                    assert(record_has(prev, k));
                }
            }
        }
    }
}

/// The tabulation laws a consumer may lean on: a record never outgrows the
/// header nor its own data row, a missing trailing cell leaves its column
/// out instead of binding it to null, every key in a record is a nonempty
/// header name, and no key appears twice.
pub proof fn lemma_record_bounds(hdr: Seq<Seq<char>>, row: Seq<RawCellV>)
    ensures
        spec_record(hdr, row).len() <= hdr.len(),
        spec_record(hdr, row).len() <= row.len(),
        forall|k: Seq<char>|
            record_has(spec_record(hdr, row), k) ==> k.len() > 0 && hdr.contains(k),
        record_distinct(spec_record(hdr, row)),
{
    let n = if hdr.len() <= row.len() {
        hdr.len() as int
    } else {
        row.len() as int
    };
    lemma_record_upto_bounds(hdr, row, n);
    assert forall|k: Seq<char>| record_has(spec_record(hdr, row), k) implies k.len() > 0
        && hdr.contains(k) by {
        let i = choose|i: int| 0 <= i < n && hdr[i] == k;
        assert(hdr[i] == k);
    }
}

/// Build the record of one data row from the rendered header.
pub fn build_record(headers: &Vec<String>, row: &Vec<RawCell>) -> (rec: RowRecord)
    ensures
        rec.deep_view() == spec_record(headers.deep_view(), row.deep_view()),
        rec.wf(),
{
    let mut rec = RowRecord::new();
    let n: usize = if headers.len() <= row.len() {
        headers.len()
    } else {
        row.len()
    };
    let ghost hd = headers.deep_view();
    let ghost rd = row.deep_view();
    let mut i: usize = 0;
    while i < n
        invariant
            i <= n,
            n <= headers@.len(),
            n <= row@.len(),
            hd == headers.deep_view(),
            rd == row.deep_view(),
            rec@ == spec_record_upto(hd, rd, i as int),
            rec.wf(),
        decreases n - i,
    {
        proof {
            assert(hd[i as int] == headers@[i as int].deep_view());
            assert(headers@[i as int].deep_view() == headers@[i as int]@);
            assert(rd[i as int] == row@[i as int].deep_view());
            assert(row@[i as int].deep_view() == row@[i as int]@);
        }
        if !headers[i].as_str().is_empty() {
            rec.insert(headers[i].clone(), coerce(&row[i]));
        }
        i = i + 1;
    }
    proof {
        assert(spec_record(hd, rd) == spec_record_upto(hd, rd, n as int));
    }
    rec
}

/// Tabulate one sheet grid into its header and row records.
pub fn process_sheet(grid: &Vec<Vec<RawCell>>) -> (r: (Vec<String>, Vec<RowRecord>))
    ensures
        r.0.deep_view() == spec_tabulate(grid.deep_view()).0,
        r.1.deep_view() == spec_tabulate(grid.deep_view()).1,
        grid@.len() == 0 ==> r.0@.len() == 0 && r.1@.len() == 0,
        forall|i: int| 0 <= i < r.1@.len() ==> (#[trigger] r.1@[i]).wf(),
        forall|i: int| 0 <= i < r.1@.len() ==> (#[trigger] r.1@[i])@.len() <= r.0@.len(),
{
    let ghost g = grid.deep_view();
    let mut headers: Vec<String> = Vec::new();
    let mut records: Vec<RowRecord> = Vec::new();
    if grid.len() == 0 {
        proof {
            assert(headers.deep_view() =~= spec_tabulate(g).0);
            assert(records.deep_view() =~= spec_tabulate(g).1);
        }
        return (headers, records);
    }
    let row0 = &grid[0];
    let m = row0.len();
    let mut j: usize = 0;
    while j < m
        invariant
            j <= m,
            grid@.len() > 0,
            m == row0@.len(),
            row0@ == grid@[0]@,
            g == grid.deep_view(),
            headers.deep_view() =~= spec_header(g[0]).take(j as int),
        decreases m - j,
    {
        let h = render_raw(&row0[j]);
        let ghost pre = headers.deep_view();
        headers.push(h);
        proof {
            assert(g[0] == grid@[0].deep_view());
            assert(grid@[0].deep_view()[j as int] == grid@[0]@[j as int].deep_view());
            assert(g[0][j as int] == row0@[j as int]@);
            assert(headers.deep_view() =~= pre.push(h@));
            assert(spec_header(g[0]).take(j + 1) =~= spec_header(g[0]).take(j as int).push(
                spec_render_raw(g[0][j as int]),
            ));
        }
        j = j + 1;
    }
    proof {
        assert(spec_header(g[0]).take(spec_header(g[0]).len() as int) =~= spec_header(g[0]));
    }
    let n = grid.len();
    let mut i: usize = 1;
    while i < n
        invariant
            1 <= i <= n,
            n == grid@.len(),
            g == grid.deep_view(),
            headers.deep_view() == spec_header(g[0]),
            records@.len() == i - 1,
            forall|t: int|
                0 <= t < i - 1 ==> records@[t].deep_view() == spec_record(
                    spec_header(g[0]),
                    g[t + 1],
                ),
            forall|t: int| 0 <= t < i - 1 ==> records@[t].wf(),
        decreases n - i,
    {
        proof {
            assert(g[i as int] == grid@[i as int].deep_view());
            assert(spec_header(g[0]) == headers.deep_view());
        }
        let rec = build_record(&headers, &grid[i]);
        records.push(rec);
        i = i + 1;
    }
    proof {
        assert(records.deep_view() =~= spec_tabulate(g).1);
        assert forall|t: int| 0 <= t < records@.len() implies (#[trigger] records@[t])@.len()
            <= headers@.len() by {
            lemma_record_bounds(spec_header(g[0]), g[t + 1]);
            assert(records@[t].deep_view() == spec_record(spec_header(g[0]), g[t + 1]));
            assert(headers.deep_view().len() == headers@.len());
        }
    }
    (headers, records)
}

} // verus!
