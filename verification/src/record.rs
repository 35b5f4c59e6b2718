//! Row records: one data row normalized into an ordered, header-keyed
//! mapping.
//!
//! Insertion keeps the position of an existing key and overwrites its value
//! (last write wins), the behaviour of an insertion-ordered mapping; with
//! duplicate header names the surviving value is therefore the one from the
//! last column bearing that name, at the position of the first.

use vstd::prelude::*;
use crate::cell::{NormalizedValue, ValueV};

verus! {

/// Spec-level model of a row record: ordered key/value pairs.
pub type RecordV = Seq<(Seq<char>, ValueV)>;

/// The keys of a record, in order.
pub open spec fn record_keys(m: RecordV) -> Seq<Seq<char>> {
    m.map_values(|e: (Seq<char>, ValueV)| e.0)
}

/// Whether the record holds the key.
pub open spec fn record_has(m: RecordV, k: Seq<char>) -> bool {
    exists|i: int| 0 <= i < m.len() && m[i].0 == k
}

/// The value under the first occurrence of the key.
pub open spec fn record_get(m: RecordV, k: Seq<char>) -> ValueV
    decreases m.len(),
{
    if m.len() == 0 {
        ValueV::Null
    } else if m[0].0 == k {
        m[0].1
    } else {
        record_get(m.drop_first(), k)
    }
}

/// All keys pairwise distinct.
pub open spec fn record_distinct(m: RecordV) -> bool {
    forall|i: int, j: int| 0 <= i < j < m.len() ==> m[i].0 != m[j].0
}

/// Insert under an insertion-ordered mapping discipline: an existing key
/// keeps its position and takes the new value; a new key goes to the end.
pub open spec fn spec_insert(m: RecordV, k: Seq<char>, v: ValueV) -> RecordV
    decreases m.len(),
{
    if m.len() == 0 {
        seq![(k, v)]
    } else if m[0].0 == k {
        seq![(k, v)] + m.drop_first()
    } else {
        seq![m[0]] + spec_insert(m.drop_first(), k, v)
    }
}

/// If `k` first occurs at position `j`, insertion replaces that entry and
/// keeps everything else.
pub proof fn lemma_insert_found(m: RecordV, k: Seq<char>, v: ValueV, j: int)
    requires
        0 <= j < m.len(),
        m[j].0 == k,
        forall|i: int| 0 <= i < j ==> m[i].0 != k,
    ensures
        spec_insert(m, k, v) =~= m.update(j, (k, v)),
    decreases m.len(),
{
    if j == 0 {
        assert(spec_insert(m, k, v) =~= m.update(0, (k, v)));
    } else {
        lemma_insert_found(m.drop_first(), k, v, j - 1);
        assert(seq![m[0]] + m.drop_first().update(j - 1, (k, v)) =~= m.update(j, (k, v)));
    }
}

/// If `k` is absent, insertion appends the new entry.
pub proof fn lemma_insert_absent(m: RecordV, k: Seq<char>, v: ValueV)
    requires
        !record_has(m, k),
    ensures
        spec_insert(m, k, v) =~= m.push((k, v)),
    decreases m.len(),
{
    if m.len() == 0 {
        assert(spec_insert(m, k, v) =~= m.push((k, v)));
    } else {
        assert(m[0].0 != k);
        assert(!record_has(m.drop_first(), k)) by {
            assert(forall|i: int|
                0 <= i < m.drop_first().len() ==> m.drop_first()[i] == m[i + 1]);
        }
        lemma_insert_absent(m.drop_first(), k, v);
        assert(seq![m[0]] + m.drop_first().push((k, v)) =~= m.push((k, v)));
    }
}

/// Keys of the record before and after an insertion: afterwards exactly the
/// old keys plus `k`.
pub proof fn lemma_insert_has(m: RecordV, k: Seq<char>, v: ValueV, k2: Seq<char>)
    ensures
        record_has(spec_insert(m, k, v), k2) <==> (k2 == k || record_has(m, k2)),
    decreases m.len(),
{
    let r = spec_insert(m, k, v);
    if m.len() == 0 {
        assert(r =~= seq![(k, v)]);
        if k2 == k {
            assert(r[0].0 == k2);
        }
        if record_has(r, k2) {
            let i = choose|i: int| 0 <= i < r.len() && r[i].0 == k2;
            assert(i == 0);
        }
    } else if m[0].0 == k {
        assert(r =~= seq![(k, v)] + m.drop_first());
        if k2 == k {
            assert(r[0].0 == k2);
        }
        if record_has(m, k2) && k2 != k {
            let i = choose|i: int| 0 <= i < m.len() && m[i].0 == k2;
            assert(i != 0);
            assert(r[i] == m.drop_first()[i - 1]);
            assert(m.drop_first()[i - 1] == m[i]);
            assert(r[i].0 == k2);
        }
        if record_has(r, k2) && k2 != k {
            let i = choose|i: int| 0 <= i < r.len() && r[i].0 == k2;
            assert(i != 0);
            assert(r[i] == m.drop_first()[i - 1]);
            assert(m.drop_first()[i - 1] == m[i]);
            assert(m[i].0 == k2);
        }
    } else {
        lemma_insert_has(m.drop_first(), k, v, k2);
        let rt = spec_insert(m.drop_first(), k, v);
        assert(r =~= seq![m[0]] + rt);
        if k2 == m[0].0 {
            assert(r[0].0 == k2);
            assert(record_has(m, k2)) by {
                assert(m[0].0 == k2);
            }
        } else {
            if record_has(m, k2) {
                let i = choose|i: int| 0 <= i < m.len() && m[i].0 == k2;
                assert(i != 0);
                assert(m.drop_first()[i - 1] == m[i]);
                assert(m.drop_first()[i - 1].0 == k2);
                assert(record_has(m.drop_first(), k2));
            }
            if k2 == k || record_has(m.drop_first(), k2) {
                assert(record_has(rt, k2));
                let i = choose|i: int| 0 <= i < rt.len() && rt[i].0 == k2;
                assert(r[i + 1] == rt[i]);
                assert(record_has(r, k2));
            }
            if record_has(r, k2) {
                let i = choose|i: int| 0 <= i < r.len() && r[i].0 == k2;
                assert(i != 0);
                assert(r[i] == rt[i - 1]);
                assert(record_has(rt, k2));
                if k2 != k {
                    assert(record_has(m.drop_first(), k2));
                    let j = choose|j: int|
                        0 <= j < m.drop_first().len() && m.drop_first()[j].0 == k2;
                    assert(m[j + 1] == m.drop_first()[j]);
                    assert(record_has(m, k2));
                }
            }
        }
    }
}

/// Insertion grows the record by one entry for a new key and not at all for
/// an existing one.
pub proof fn lemma_insert_len(m: RecordV, k: Seq<char>, v: ValueV)
    ensures
        record_has(m, k) ==> spec_insert(m, k, v).len() == m.len(),
        !record_has(m, k) ==> spec_insert(m, k, v).len() == m.len() + 1,
    decreases m.len(),
{
    if m.len() == 0 {
    } else if m[0].0 == k {
        assert(record_has(m, k)) by {
            assert(m[0].0 == k);
        }
    } else {
        lemma_insert_len(m.drop_first(), k, v);
        assert(record_has(m.drop_first(), k) <==> record_has(m, k)) by {
            if record_has(m, k) {
                let i = choose|i: int| 0 <= i < m.len() && m[i].0 == k;
                assert(i != 0);
                assert(m.drop_first()[i - 1] == m[i]);
                assert(m.drop_first()[i - 1].0 == k);
            }
            if record_has(m.drop_first(), k) {
                let i = choose|i: int| 0 <= i < m.drop_first().len() && m.drop_first()[i].0 == k;
                assert(m[i + 1] == m.drop_first()[i]);
                assert(m[i + 1].0 == k);
            }
        }
    }
}

/// Insertion keeps the keys pairwise distinct.
pub proof fn lemma_insert_distinct(m: RecordV, k: Seq<char>, v: ValueV)
    requires
        record_distinct(m),
    ensures
        record_distinct(spec_insert(m, k, v)),
    decreases m.len(),
{
    let r = spec_insert(m, k, v);
    if m.len() == 0 {
    } else if m[0].0 == k {
        assert(r =~= seq![(k, v)] + m.drop_first());
        assert forall|i: int, j: int| 0 <= i < j < r.len() implies r[i].0 != r[j].0 by {
            if i == 0 {
                assert(r[j] == m.drop_first()[j - 1]);
                assert(m.drop_first()[j - 1] == m[j]);
                assert(m[0].0 != m[j].0);
            } else {
                assert(r[i] == m[i] && r[j] == m[j]);
            }
        }
    } else {
        assert(record_distinct(m.drop_first())) by {
            assert(forall|i: int|
                0 <= i < m.drop_first().len() ==> m.drop_first()[i] == m[i + 1]);
        }
        lemma_insert_distinct(m.drop_first(), k, v);
        let rt = spec_insert(m.drop_first(), k, v);
        assert(r =~= seq![m[0]] + rt);
        assert(!record_has(m.drop_first(), m[0].0)) by {
            if record_has(m.drop_first(), m[0].0) {
                let i = choose|i: int|
                    0 <= i < m.drop_first().len() && m.drop_first()[i].0 == m[0].0;
                assert(m[i + 1] == m.drop_first()[i]);
                assert(m[i + 1].0 == m[0].0);
            }
        }
        assert(!record_has(rt, m[0].0)) by {
            lemma_insert_has(m.drop_first(), k, v, m[0].0);
        }
        assert forall|i: int, j: int| 0 <= i < j < r.len() implies r[i].0 != r[j].0 by {
            if i == 0 {
                assert(r[j] == rt[j - 1]);
                if rt[j - 1].0 == m[0].0 {
                    assert(record_has(rt, m[0].0));
                }
            } else {
                assert(r[i] == rt[i - 1] && r[j] == rt[j - 1]);
            }
        }
    }
}

/// Insertion never adds a second entry for a key, never grows the record by
/// more than one entry, and the keys afterwards are the old keys plus `k`.
pub proof fn lemma_insert_shape(m: RecordV, k: Seq<char>, v: ValueV)
    ensures
        record_has(m, k) ==> spec_insert(m, k, v).len() == m.len(),
        !record_has(m, k) ==> spec_insert(m, k, v).len() == m.len() + 1,
        forall|k2: Seq<char>|
            record_has(spec_insert(m, k, v), k2) <==> (k2 == k || record_has(m, k2)),
        record_distinct(m) ==> record_distinct(spec_insert(m, k, v)),
{
    lemma_insert_len(m, k, v);
    assert forall|k2: Seq<char>|
        record_has(spec_insert(m, k, v), k2) <==> (k2 == k || record_has(m, k2)) by {
        lemma_insert_has(m, k, v, k2);
    }
    if record_distinct(m) {
        lemma_insert_distinct(m, k, v);
    }
}

/// One data row as an ordered header-keyed mapping.  The entry vector is
/// public so that callers can relate a record they hold to its model; the
/// methods below keep the keys distinct.
#[derive(Debug)]
pub struct RowRecord {
    pub entries: Vec<(String, NormalizedValue)>,
}

impl View for RowRecord {
    type V = RecordV;

    open spec fn view(&self) -> RecordV {
        self.entries@.map_values(|e: (String, NormalizedValue)| (e.0@, e.1@))
    }
}

impl DeepView for RowRecord {
    type V = RecordV;

    open spec fn deep_view(&self) -> RecordV {
        self.view()
    }
}

impl RowRecord {
    /// All keys pairwise distinct; established by `new` and kept by `insert`.
    pub open spec fn wf(&self) -> bool {
        record_distinct(self@)
    }

    /// An empty record.
    pub fn new() -> (r: RowRecord)
        ensures
            r@ == Seq::<(Seq<char>, ValueV)>::empty(),
            r.wf(),
    {
        let r = RowRecord { entries: Vec::new() };
        proof {
            assert(r@ =~= Seq::<(Seq<char>, ValueV)>::empty());
        }
        r
    }

    /// Number of entries.
    pub fn len(&self) -> (n: usize)
        ensures
            n == self@.len(),
    {
        self.entries.len()
    }

    /// The key at one position.
    pub fn key_at(&self, i: usize) -> (k: &String)
        requires
            i < self@.len(),
        ensures
            k@ == self@[i as int].0,
    {
        &self.entries[i].0
    }

    /// The value at one position.
    pub fn value_at(&self, i: usize) -> (v: &NormalizedValue)
        requires
            i < self@.len(),
        ensures
            v@ == self@[i as int].1,
    {
        &self.entries[i].1
    }

    /// Insert a value under a key: an existing key keeps its position and
    /// takes the new value, a new key goes to the end.
    pub fn insert(&mut self, k: String, v: NormalizedValue)
        ensures
            final(self)@ == spec_insert(old(self)@, k@, v@),
            old(self).wf() ==> final(self).wf(),
    {
        proof {
            lemma_insert_shape(self@, k@, v@);
        }
        let n = self.entries.len();
        let mut i: usize = 0;
        while i < n
            invariant
                self == old(self),
                n == self@.len(),
                i <= n,
                forall|j: int| 0 <= j < i ==> self@[j].0 != k@,
            decreases n - i,
        {
            if self.entries[i].0 == k {
                let ghost kk = k@;
                let ghost vv = v@;
                proof {
                    lemma_insert_found(self@, kk, vv, i as int);
                }
                let ghost pre = self@;
                self.entries.set(i, (k, v));
                proof {
                    assert(self@ =~= pre.update(i as int, (kk, vv)));
                    assert(self@ == spec_insert(old(self)@, kk, vv));
                    assert forall|t: int|
                        0 <= t < self@.len() implies (#[trigger] self@[t]).0 == pre[t].0 by {
                        if t == i as int {
                            assert(pre[t].0 == kk);
                        }
                    }
                    if old(self).wf() {
                        assert forall|a: int, b: int|
                            0 <= a < b < self@.len() implies self@[a].0 != self@[b].0 by {
                            assert(self@[a].0 == pre[a].0 && self@[b].0 == pre[b].0);
                            assert(pre[a].0 != pre[b].0);
                        }
                    }
                }
                return ;
            }
            i = i + 1;
        }
        proof {
            assert(!record_has(self@, k@));
            lemma_insert_absent(self@, k@, v@);
        }
        let ghost pre = self@;
        self.entries.push((k, v));
        proof {
            assert(self@ =~= pre.push((k@, v@)));
        }
    }

    /// Look a key up: `Some` exactly when the key is present, and then the
    /// value under its first occurrence.
    pub fn get(&self, k: &String) -> (r: Option<&NormalizedValue>)
        ensures
            r is Some <==> record_has(self@, k@),
            r is Some ==> r.unwrap()@ == record_get(self@, k@),
    {
        let n = self.entries.len();
        let mut i: usize = 0;
        while i < n
            invariant
                n == self@.len(),
                i <= n,
                forall|j: int| 0 <= j < i ==> self@[j].0 != k@,
            decreases n - i,
        {
            if self.entries[i].0 == *k {
                proof {
                    lemma_get_at_first(self@, k@, i as int);
                }
                return Some(&self.entries[i].1);
            }
            i = i + 1;
        }
        None
    }

    /// The keys of the record, in order.
    pub fn keys(&self) -> (r: Vec<String>)
        ensures
            r.deep_view() == record_keys(self@),
    {
        let n = self.entries.len();
        let mut r: Vec<String> = Vec::new();
        let mut i: usize = 0;
        while i < n
            invariant
                n == self@.len(),
                i <= n,
                r.deep_view() =~= record_keys(self@).take(i as int),
            decreases n - i,
        {
            r.push(self.entries[i].0.clone());
            proof {
                assert(r.deep_view() =~= record_keys(self@).take(i as int).push(
                    self@[i as int].0,
                ));
                assert(record_keys(self@).take(i + 1 as int) =~= record_keys(self@).take(
                    i as int,
                ).push(self@[i as int].0));
            }
            i = i + 1;
        }
        proof {
            assert(record_keys(self@).take(n as int) =~= record_keys(self@));
        }
        r
    }
}

/// If `k` first occurs at position `j`, `record_get` yields that entry's
/// value.
pub proof fn lemma_get_at_first(m: RecordV, k: Seq<char>, j: int)
    requires
        0 <= j < m.len(),
        m[j].0 == k,
        forall|i: int| 0 <= i < j ==> m[i].0 != k,
    ensures
        record_has(m, k),
        record_get(m, k) == m[j].1,
    decreases m.len(),
{
    if j > 0 {
        lemma_get_at_first(m.drop_first(), k, j - 1);
    }
}

} // verus!
