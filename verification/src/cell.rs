//! Cell values and their total coercion and rendering rules.
//!
//! A `RawCell` is one cell as it comes out of the decoded container; a
//! `NormalizedValue` is its coerced, language-agnostic form.  Floating-point
//! and timestamp cells are carried as their canonical decimal text, produced
//! once at the decoding boundary: the logic here only ever reads their text
//! form or passes it through unchanged, so no float lives in the core.

use vstd::prelude::*;
use vstd::string::StringExecFns;
use crate::text::string_of_chars;

verus! {

/// One cell of a decoded sheet grid.
#[derive(Clone, Debug, PartialEq, Eq)]
pub enum RawCell {
    Text(String),
    Integer(i64),
    /// Canonical decimal rendering of a floating-point cell.
    Float(String),
    Boolean(bool),
    /// Text rendering of a date/time cell (serial number or ISO form).
    Timestamp(String),
    Empty,
    Error,
}

/// The coerced form of a cell: one of a small set of normalized kinds.
/// `Empty` and `Error` cells both coerce to `Null`.
#[derive(Clone, Debug, PartialEq, Eq)]
pub enum NormalizedValue {
    Text(String),
    Integer(i64),
    Float(String),
    Boolean(bool),
    Timestamp(String),
    Null,
}

/// Spec-level model of a `RawCell`.
pub ghost enum RawCellV {
    Text(Seq<char>),
    Integer(int),
    Float(Seq<char>),
    Boolean(bool),
    Timestamp(Seq<char>),
    Empty,
    Error,
}

/// Spec-level model of a `NormalizedValue`.
pub ghost enum ValueV {
    Text(Seq<char>),
    Integer(int),
    Float(Seq<char>),
    Boolean(bool),
    Timestamp(Seq<char>),
    Null,
}

impl View for RawCell {
    type V = RawCellV;

    open spec fn view(&self) -> RawCellV {
        match self {
            RawCell::Text(s) => RawCellV::Text(s@),
            RawCell::Integer(i) => RawCellV::Integer(*i as int),
            RawCell::Float(s) => RawCellV::Float(s@),
            RawCell::Boolean(b) => RawCellV::Boolean(*b),
            RawCell::Timestamp(s) => RawCellV::Timestamp(s@),
            RawCell::Empty => RawCellV::Empty,
            RawCell::Error => RawCellV::Error,
        }
    }
}

impl DeepView for RawCell {
    type V = RawCellV;

    open spec fn deep_view(&self) -> RawCellV {
        self.view()
    }
}

impl View for NormalizedValue {
    type V = ValueV;

    open spec fn view(&self) -> ValueV {
        match self {
            NormalizedValue::Text(s) => ValueV::Text(s@),
            NormalizedValue::Integer(i) => ValueV::Integer(*i as int),
            NormalizedValue::Float(s) => ValueV::Float(s@),
            NormalizedValue::Boolean(b) => ValueV::Boolean(*b),
            NormalizedValue::Timestamp(s) => ValueV::Timestamp(s@),
            NormalizedValue::Null => ValueV::Null,
        }
    }
}

impl DeepView for NormalizedValue {
    type V = ValueV;

    open spec fn deep_view(&self) -> ValueV {
        self.view()
    }
}

/// Total coercion of a raw cell into its normalized kind.
pub open spec fn spec_coerce(c: RawCellV) -> ValueV {
    match c {
        RawCellV::Text(s) => ValueV::Text(s),
        RawCellV::Integer(i) => ValueV::Integer(i),
        RawCellV::Float(s) => ValueV::Float(s),
        RawCellV::Boolean(b) => ValueV::Boolean(b),
        RawCellV::Timestamp(s) => ValueV::Timestamp(s),
        RawCellV::Empty => ValueV::Null,
        RawCellV::Error => ValueV::Null,
    }
}

/// Coerce one raw cell; total, never fails.
pub fn coerce(c: &RawCell) -> (r: NormalizedValue)
    ensures
        r@ == spec_coerce(c@),
{
    match c {
        RawCell::Text(s) => NormalizedValue::Text(s.clone()),
        RawCell::Integer(i) => NormalizedValue::Integer(*i),
        RawCell::Float(s) => NormalizedValue::Float(s.clone()),
        RawCell::Boolean(b) => NormalizedValue::Boolean(*b),
        RawCell::Timestamp(s) => NormalizedValue::Timestamp(s.clone()),
        RawCell::Empty => NormalizedValue::Null,
        RawCell::Error => NormalizedValue::Null,
    }
}

/// The character for one decimal digit.
pub open spec fn digit_char(d: nat) -> char
    recommends
        d < 10,
{
    ((48 + d) as u8) as char
}

/// Decimal digits of `n`, most significant first; empty for zero.
pub open spec fn dec_digits_pos(n: nat) -> Seq<char>
    decreases n,
{
    if n == 0 {
        Seq::empty()
    } else {
        dec_digits_pos(n / 10) + seq![digit_char(n % 10)]
    }
}

/// Canonical decimal rendering of a nonnegative integer.
pub open spec fn dec_nat(n: nat) -> Seq<char> {
    if n == 0 {
        seq!['0']
    } else {
        dec_digits_pos(n)
    }
}

/// Canonical decimal rendering of a signed integer.
pub open spec fn dec_int(i: int) -> Seq<char> {
    if i < 0 {
        seq!['-'] + dec_nat((-i) as nat)
    } else {
        dec_nat(i as nat)
    }
}

fn digit_char_exec(d: u64) -> (c: char)
    requires
        d < 10,
    ensures
        c == digit_char(d as nat),
{
    (48 + d as u8) as char
}

/// Decimal rendering of a `u64`, as a character vector.
pub fn render_u64(n: u64) -> (r: Vec<char>)
    ensures
        r@ == dec_nat(n as nat),
{
    let mut digits: Vec<char> = Vec::new();
    if n == 0 {
        digits.push('0');
        return digits;
    }
    let mut m: u64 = n;
    while m > 0
        invariant
            dec_digits_pos(n as nat) == dec_digits_pos(m as nat) + digits@,
        decreases m,
    {
        let ghost m0 = m as nat;
        let ghost pre = digits@;
        let d = digit_char_exec(m % 10);
        digits.insert(0, d);
        m = m / 10;
        proof {
            assert(dec_digits_pos(m0) == dec_digits_pos(m0 / 10) + seq![digit_char(m0 % 10)]);
            assert(digits@ =~= seq![digit_char(m0 % 10)] + pre);
            assert(dec_digits_pos(m0 / 10) + (seq![digit_char(m0 % 10)] + pre) =~= (dec_digits_pos(
                m0 / 10,
            ) + seq![digit_char(m0 % 10)]) + pre);
        }
    }
    proof {
        assert(dec_digits_pos(0nat) + digits@ =~= digits@);
    }
    digits
}

/// Decimal rendering of an `i64`, as a character vector.
pub fn render_i64(i: i64) -> (r: Vec<char>)
    ensures
        r@ == dec_int(i as int),
{
    if i >= 0 {
        render_u64(i as u64)
    } else {
        let mag: u64 = if i == i64::MIN {
            9223372036854775808u64
        } else {
            (-i) as u64
        };
        proof {
            assert(mag as nat == (-(i as int)) as nat);
        }
        let ds = render_u64(mag);
        let mut r: Vec<char> = Vec::new();
        r.push('-');
        let mut j: usize = 0;
        while j < ds.len()
            invariant
                j <= ds@.len(),
                r@ == seq!['-'] + ds@.take(j as int),
            decreases ds@.len() - j,
        {
            r.push(ds[j]);
            proof {
                assert(ds@.take(j + 1 as int) =~= ds@.take(j as int) + seq![ds@[j as int]]);
                assert(seq!['-'] + ds@.take(j + 1 as int) =~= (seq!['-'] + ds@.take(j as int))
                    + seq![ds@[j as int]]);
            }
            j = j + 1;
        }
        proof {
            assert(ds@.take(ds@.len() as int) =~= ds@);
        }
        r
    }
}

/// String rendering of a raw cell: text stays itself, numbers and booleans
/// take their canonical text form, timestamps, empty and error cells render
/// as the empty string.
pub open spec fn spec_render_raw(c: RawCellV) -> Seq<char> {
    match c {
        RawCellV::Text(s) => s,
        RawCellV::Integer(i) => dec_int(i),
        RawCellV::Float(s) => s,
        RawCellV::Boolean(b) => if b {
            "true"@
        } else {
            "false"@
        },
        RawCellV::Timestamp(_) => Seq::empty(),
        RawCellV::Empty => Seq::empty(),
        RawCellV::Error => Seq::empty(),
    }
}

/// String rendering of a normalized value; `Null` renders as the empty
/// string, not as the word "null".
pub open spec fn spec_render_value(v: ValueV) -> Seq<char> {
    match v {
        ValueV::Text(s) => s,
        ValueV::Integer(i) => dec_int(i),
        ValueV::Float(s) => s,
        ValueV::Boolean(b) => if b {
            "true"@
        } else {
            "false"@
        },
        ValueV::Timestamp(_) => Seq::empty(),
        ValueV::Null => Seq::empty(),
    }
}

/// Render one raw cell to text; total, never fails.
pub fn render_raw(c: &RawCell) -> (r: String)
    ensures
        r@ == spec_render_raw(c@),
{
    match c {
        RawCell::Text(s) => s.clone(),
        RawCell::Integer(i) => string_of_chars(&render_i64(*i)),
        RawCell::Float(s) => s.clone(),
        RawCell::Boolean(b) => if *b {
            String::from_str("true")
        } else {
            String::from_str("false")
        },
        RawCell::Timestamp(_) => String::new(),
        RawCell::Empty => String::new(),
        RawCell::Error => String::new(),
    }
}

/// Render one normalized value to text; total, never fails.
pub fn render_value(v: &NormalizedValue) -> (r: String)
    ensures
        r@ == spec_render_value(v@),
{
    match v {
        NormalizedValue::Text(s) => s.clone(),
        NormalizedValue::Integer(i) => string_of_chars(&render_i64(*i)),
        NormalizedValue::Float(s) => s.clone(),
        NormalizedValue::Boolean(b) => if *b {
            String::from_str("true")
        } else {
            String::from_str("false")
        },
        NormalizedValue::Timestamp(_) => String::new(),
        NormalizedValue::Null => String::new(),
    }
}

/// Coercion round-trip: rendering a coerced value always gives the raw
/// cell's own rendering, and empty and error cells coerce to `Null` and
/// render as the empty string.
pub proof fn lemma_coerce_render_roundtrip(c: RawCellV)
    ensures
        spec_render_value(spec_coerce(c)) == spec_render_raw(c),
        (c is Empty || c is Error) ==> spec_coerce(c) == ValueV::Null && spec_render_raw(c)
            == Seq::<char>::empty(),
{
}

} // verus!
