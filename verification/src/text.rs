//! Verified text utilities: building strings from characters, whitespace
//! trimming, substring search, and the question heuristic.

use vstd::prelude::*;
use vstd::string::StrSliceExecFns;

verus! {

/// Relies on `String::push`: appends the given character to the end of the
/// string.
#[verifier::external_body]
fn push_char(s: &mut String, c: char)
    ensures
        final(s)@ == old(s)@ + seq![c],
{
    s.push(c)
}

/// Build a `String` whose characters are exactly the given vector.
pub fn string_of_chars(v: &Vec<char>) -> (r: String)
    ensures
        r@ == v@,
{
    let mut r = String::new();
    let mut i: usize = 0;
    while i < v.len()
        invariant
            i <= v.len(),
            r@ == v@.take(i as int),
        decreases v.len() - i,
    {
        push_char(&mut r, v[i]);
        proof {
            assert(v@.take(i + 1 as int) =~= v@.take(i as int) + seq![v@[i as int]]);
        }
        i = i + 1;
    }
    proof {
        assert(v@.take(v@.len() as int) =~= v@);
    }
    r
}

/// Collect the characters of a string slice into a vector.
pub fn chars_of(s: &str) -> (r: Vec<char>)
    ensures
        r@ == s@,
{
    let n = s.unicode_len();
    let mut r: Vec<char> = Vec::new();
    let mut i: usize = 0;
    while i < n
        invariant
            i <= n,
            n == s@.len(),
            r@ == s@.take(i as int),
        decreases n - i,
    {
        r.push(s.get_char(i));
        proof {
            assert(s@.take(i + 1 as int) =~= s@.take(i as int) + seq![s@[i as int]]);
        }
        i = i + 1;
    }
    proof {
        assert(s@.take(s@.len() as int) =~= s@);
    }
    r
}

/// The Unicode `White_Space` characters: what trimming strips from the ends
/// of a rendered cell.
pub open spec fn is_space(c: char) -> bool {
    let u = c as u32;
    u == 0x09 || u == 0x0A || u == 0x0B || u == 0x0C || u == 0x0D || u == 0x20
        || u == 0x85 || u == 0xA0 || u == 0x1680 || (0x2000 <= u && u <= 0x200A)
        || u == 0x2028 || u == 0x2029 || u == 0x202F || u == 0x205F || u == 0x3000
}

fn is_space_exec(c: char) -> (r: bool)
    ensures
        r == is_space(c),
{
    let u = c as u32;
    u == 0x09 || u == 0x0A || u == 0x0B || u == 0x0C || u == 0x0D || u == 0x20
        || u == 0x85 || u == 0xA0 || u == 0x1680 || (0x2000 <= u && u <= 0x200A)
        || u == 0x2028 || u == 0x2029 || u == 0x202F || u == 0x205F || u == 0x3000
}

/// Number of whitespace characters at the end of the string.
pub open spec fn trailing_spaces(s: Seq<char>) -> int
    decreases s.len(),
{
    if s.len() == 0 || !is_space(s.last()) {
        0
    } else {
        1 + trailing_spaces(s.drop_last())
    }
}

/// Number of whitespace characters at the front of the string.
pub open spec fn leading_spaces(s: Seq<char>) -> int
    decreases s.len(),
{
    if s.len() == 0 || !is_space(s[0]) {
        0
    } else {
        1 + leading_spaces(s.drop_first())
    }
}

/// The string with leading and trailing whitespace removed.
pub open spec fn spec_trim(s: Seq<char>) -> Seq<char> {
    let t = s.take(s.len() - trailing_spaces(s));
    t.skip(leading_spaces(t))
}

/// What `leading_spaces` counts: a run of whitespace at the front, ended by
/// a non-space character or the end of the string.
pub proof fn lemma_leading_spaces(s: Seq<char>)
    ensures
        0 <= leading_spaces(s) <= s.len(),
        forall|i: int| 0 <= i < leading_spaces(s) ==> is_space(s[i]),
        leading_spaces(s) < s.len() ==> !is_space(s[leading_spaces(s)]),
    decreases s.len(),
{
    if s.len() == 0 || !is_space(s[0]) {
    } else {
        lemma_leading_spaces(s.drop_first());
        assert forall|i: int| 0 <= i < leading_spaces(s) implies is_space(s[i]) by {
            if i > 0 {
                assert(s.drop_first()[i - 1] == s[i]);
                assert(is_space(s.drop_first()[i - 1]));
            }
        }
        if leading_spaces(s) < s.len() {
            assert(s.drop_first()[leading_spaces(s) - 1] == s[leading_spaces(s)]);
        }
    }
}

/// `trailing_spaces` is the unique count with that shape.
proof fn lemma_trailing_spaces_unique(s: Seq<char>, t: int)
    requires
        0 <= t <= s.len(),
        forall|i: int| s.len() - t <= i < s.len() ==> is_space(s[i]),
        t < s.len() ==> !is_space(s[s.len() - t - 1]),
    ensures
        trailing_spaces(s) == t,
    decreases s.len(),
{
    if t == 0 {
        if s.len() > 0 {
            assert(!is_space(s.last()));
        }
    } else {
        assert(is_space(s.last()));
        assert(forall|i: int| 0 <= i < s.len() - 1 ==> s.drop_last()[i] == s[i]);
        lemma_trailing_spaces_unique(s.drop_last(), t - 1);
    }
}

/// Whether the text, after trimming leading and trailing whitespace, ends
/// with a question mark.
pub fn trimmed_ends_with_qmark(s: &Vec<char>) -> (r: bool)
    ensures
        r == (spec_trim(s@).len() > 0 && spec_trim(s@).last() == '?'),
{
    let mut i: usize = s.len();
    while i > 0
        invariant
            i <= s@.len(),
            forall|j: int| i <= j < s@.len() ==> is_space(s@[j]),
        decreases i,
    {
        if !is_space_exec(s[i - 1]) {
            proof {
                lemma_trailing_spaces_unique(s@, s@.len() - i);
                let t = s@.take(i as int);
                lemma_leading_spaces(t);
                assert(t.last() == s@[i - 1]);
                assert(leading_spaces(t) < t.len()) by {
                    if leading_spaces(t) == t.len() {
                        assert(is_space(t[t.len() - 1]));
                    }
                }
                assert(spec_trim(s@) == t.skip(leading_spaces(t)));
                assert(spec_trim(s@).len() > 0);
                assert(spec_trim(s@).last() == t.last());
            }
            return s[i - 1] == '?';
        }
        i = i - 1;
    }
    proof {
        lemma_trailing_spaces_unique(s@, s@.len() as int);
        assert(spec_trim(s@) == s@.take(0).skip(leading_spaces(s@.take(0))));
        assert(leading_spaces(s@.take(0)) == 0);
        assert(spec_trim(s@).len() == 0);
    }
    false
}

/// Whether `needle` occurs as a contiguous run inside `hay`.
pub open spec fn spec_contains(hay: Seq<char>, needle: Seq<char>) -> bool {
    exists|k: int|
        0 <= k <= hay.len() - needle.len() && #[trigger] hay.subrange(k, k + needle.len())
            == needle
}

/// Substring search: does `hay` contain `needle`?
pub fn contains_sub(hay: &Vec<char>, needle: &Vec<char>) -> (r: bool)
    ensures
        r == spec_contains(hay@, needle@),
{
    let n = hay.len();
    let m = needle.len();
    if m > n {
        return false;
    }
    if m == 0 {
        proof {
            assert(hay@.subrange(0, 0 + needle@.len() as int) =~= needle@);
        }
        return true;
    }
    let mut k: usize = 0;
    while k <= n - m
        invariant
            1 <= m <= n,
            n == hay@.len(),
            m == needle@.len(),
            k <= n - m + 1,
            forall|k2: int|
                0 <= k2 < k ==> #[trigger] hay@.subrange(k2, k2 + m) != needle@,
        decreases n - m - k + 1,
    {
        let mut matches = true;
        let mut t: usize = 0;
        while t < m && matches
            invariant
                t <= m,
                k + m <= n,
                n == hay@.len(),
                m == needle@.len(),
                matches ==> forall|j: int| 0 <= j < t ==> hay@[k + j] == needle@[j],
                !matches ==> hay@.subrange(k as int, k + m) != needle@,
            decreases m - t,
        {
            if hay[k + t] != needle[t] {
                proof {
                    assert(hay@.subrange(k as int, k + m)[t as int] == hay@[k + t]);
                }
                matches = false;
            }
            t = t + 1;
        }
        if matches {
            proof {
                assert forall|j: int|
                    0 <= j < m implies hay@.subrange(k as int, k + m)[j] == needle@[j] by {
                    assert(hay@[k + j] == needle@[j]);
                }
                assert(hay@.subrange(k as int, k + m) =~= needle@);
            }
            return true;
        }
        k = k + 1;
    }
    proof {
        assert(forall|k2: int|
            0 <= k2 <= n - m ==> #[trigger] hay@.subrange(k2, k2 + m) != needle@);
    }
    false
}

/// The lowercase form of a character sequence, as `str::to_lowercase`
/// computes it.
pub uninterp spec fn lower_of(s: Seq<char>) -> Seq<char>;

/// Relies on `str::to_lowercase`: the result depends on the input
/// characters alone, and an empty string lowercases to an empty string.
#[verifier::external_body]
fn lowercase(s: &str) -> (r: String)
    ensures
        r@ == lower_of(s@),
        s@.len() == 0 ==> r@.len() == 0,
{
    s.to_lowercase()
}

/// The question heuristic: a cell's text marks a question exactly when,
/// after trimming surrounding whitespace, it ends with a question mark, or
/// its lowercase form contains the word "question".
pub open spec fn spec_is_question(text: Seq<char>) -> bool {
    (spec_trim(text).len() > 0 && spec_trim(text).last() == '?') || spec_contains(
        lower_of(text),
        "question"@,
    )
}

/// Decide the question heuristic for one rendered cell text.
pub fn is_question(text: &String) -> (r: bool)
    ensures
        r == spec_is_question(text@),
{
    let cs = chars_of(text.as_str());
    if trimmed_ends_with_qmark(&cs) {
        return true;
    }
    let low = lowercase(text.as_str());
    let lcs = chars_of(low.as_str());
    let needle = chars_of("question");
    contains_sub(&lcs, &needle)
}

} // verus!
