//! One ordered table of byte-string keys and values, and the cursor that
//! walks it.
//!
//! A table keeps its entries in a vector that is strictly sorted by key in
//! byte-lexicographic order. Its model is that sorted sequence of pairs
//! ([`Table::pairs`]); the mapping from key to value is derived from it
//! ([`to_map`]).

use vstd::prelude::*;
use crate::lex::{
    copy_bytes, lemma_lex_asymmetric, lemma_lex_irreflexive, lemma_lex_le_lt, lemma_lex_total,
    lemma_lex_transitive, lex_le, lex_less, lex_lt, same_bytes,
};

verus! {

/// A (key, value) pair as contracts see it.
pub type Pair = (Seq<u8>, Seq<u8>);

/// A (key, value) pair of a table.
#[derive(Debug)]
pub struct Entry {
    pub key: Vec<u8>,
    pub value: Vec<u8>,
}

impl View for Entry {
    type V = Pair;

    open spec fn view(&self) -> Pair {
        (self.key@, self.value@)
    }
}

impl Entry {
    /// A fresh entry holding the same key and value.
    pub fn duplicate(&self) -> (r: Entry)
        ensures
            r@ == self@,
    {
        Entry { key: copy_bytes(&self.key), value: copy_bytes(&self.value) }
    }
}

/// The pairs that a vector of entries stands for, in the vector's order.
pub open spec fn pairs_of(entries: Seq<Entry>) -> Seq<Pair> {
    Seq::new(entries.len(), |i: int| entries[i]@)
}

/// The keys of `s` strictly increase in byte-lexicographic order.
pub open spec fn sorted(s: Seq<Pair>) -> bool {
    forall|i: int, j: int| 0 <= i < j < s.len() ==> lex_lt(#[trigger] s[i].0, #[trigger] s[j].0)
}

/// Some pair of `s` has the key `k`.
pub open spec fn has_key(s: Seq<Pair>, k: Seq<u8>) -> bool {
    exists|i: int| 0 <= i < s.len() && (#[trigger] s[i]).0 == k
}

/// A position in `s` that holds the key `k`, where there is one.
pub open spec fn index_of(s: Seq<Pair>, k: Seq<u8>) -> int {
    choose|i: int| 0 <= i < s.len() && (#[trigger] s[i]).0 == k
}

/// The mapping from key to value that the pairs of `s` describe.
pub open spec fn to_map(s: Seq<Pair>) -> Map<Seq<u8>, Seq<u8>> {
    Map::new(|k: Seq<u8>| has_key(s, k), |k: Seq<u8>| s[index_of(s, k)].1)
}

/// In a sorted sequence each key stands at one position only, so the mapping
/// gives each key the value that stands beside it.
pub proof fn lemma_to_map_at(s: Seq<Pair>, i: int)
    requires
        sorted(s),
        0 <= i < s.len(),
    ensures
        has_key(s, s[i].0),
        index_of(s, s[i].0) == i,
        to_map(s).contains_key(s[i].0),
        to_map(s)[s[i].0] == s[i].1,
{
    let k = s[i].0;
    assert(has_key(s, k));
    let j = index_of(s, k);
    if j < i {
        lemma_lex_asymmetric(s[j].0, s[i].0);
    } else if i < j {
        lemma_lex_asymmetric(s[i].0, s[j].0);
    }
}

/// Taking the pair at `i` out of a sorted sequence leaves a sorted sequence
/// whose mapping has lost that pair's key and nothing else.
pub proof fn lemma_to_map_remove(s: Seq<Pair>, i: int)
    requires
        sorted(s),
        0 <= i < s.len(),
    ensures
        sorted(s.remove(i)),
        to_map(s.remove(i)) == to_map(s).remove(s[i].0),
{
    let t = s.remove(i);
    assert forall|a: int, b: int| 0 <= a < b < t.len() implies lex_lt(
        #[trigger] t[a].0,
        #[trigger] t[b].0,
    ) by {
        let a2 = if a < i { a } else { a + 1 };
        let b2 = if b < i { b } else { b + 1 };
        assert(t[a] == s[a2]);
        assert(t[b] == s[b2]);
    }
    assert forall|k: Seq<u8>| to_map(t).contains_key(k) <==> to_map(s).remove(s[i].0).contains_key(
        k,
    ) by {
        if has_key(t, k) {
            let j = index_of(t, k);
            let j2 = if j < i { j } else { j + 1 };
            assert(t[j] == s[j2]);
            assert(s[j2].0 == k);
            if j2 < i {
                lemma_lex_asymmetric(s[j2].0, s[i].0);
            } else {
                lemma_lex_asymmetric(s[i].0, s[j2].0);
            }
        }
        if has_key(s, k) && k != s[i].0 {
            let j = index_of(s, k);
            let j2 = if j < i { j } else { j - 1 };
            assert(t[j2] == s[j]);
            assert(t[j2].0 == k);
        }
    }
    assert forall|k: Seq<u8>| to_map(t).contains_key(k) implies to_map(t)[k] == to_map(s).remove(
        s[i].0,
    )[k] by {
        let j = index_of(t, k);
        let j2 = if j < i { j } else { j + 1 };
        assert(t[j] == s[j2]);
        lemma_to_map_at(t, j);
        lemma_to_map_at(s, j2);
    }
    assert(to_map(t) =~= to_map(s).remove(s[i].0));
}

/// Putting a pair with a new key at its place in a sorted sequence adds that
/// key to the mapping and changes nothing else.
pub proof fn lemma_to_map_insert(s: Seq<Pair>, p: int, k: Seq<u8>, v: Seq<u8>)
    requires
        sorted(s),
        0 <= p <= s.len(),
        sorted(s.insert(p, (k, v))),
    ensures
        to_map(s.insert(p, (k, v))) == to_map(s).insert(k, v),
{
    let t = s.insert(p, (k, v));
    assert(t[p] == (k, v));
    lemma_to_map_at(t, p);
    assert(t.remove(p) =~= s);
    lemma_to_map_remove(t, p);
    assert(to_map(t) =~= to_map(s).insert(k, v));
}

/// Giving the pair at `p` a new value changes the mapping at that pair's key
/// and nowhere else.
pub proof fn lemma_to_map_update(s: Seq<Pair>, p: int, v: Seq<u8>)
    requires
        sorted(s),
        0 <= p < s.len(),
    ensures
        sorted(s.update(p, (s[p].0, v))),
        to_map(s.update(p, (s[p].0, v))) == to_map(s).insert(s[p].0, v),
{
    let k = s[p].0;
    let t = s.update(p, (k, v));
    assert forall|a: int, b: int| 0 <= a < b < t.len() implies lex_lt(
        #[trigger] t[a].0,
        #[trigger] t[b].0,
    ) by {
        assert(t[a].0 == s[a].0);
        assert(t[b].0 == s[b].0);
    }
    lemma_to_map_at(t, p);
    lemma_to_map_at(s, p);
    lemma_to_map_remove(t, p);
    lemma_to_map_remove(s, p);
    assert(t.remove(p) =~= s.remove(p));
    let mt = to_map(t);
    let ms = to_map(s);
    assert(mt.remove(k) == ms.remove(k));
    assert forall|x: Seq<u8>| mt.contains_key(x) <==> ms.insert(k, v).contains_key(x) by {
        if x != k {
            assert(mt.remove(k).contains_key(x) == mt.contains_key(x));
            assert(ms.remove(k).contains_key(x) == ms.contains_key(x));
        }
    }
    assert forall|x: Seq<u8>| mt.contains_key(x) implies mt[x] == ms.insert(k, v)[x] by {
        if x != k {
            assert(mt.remove(k)[x] == mt[x]);
            assert(ms.remove(k)[x] == ms[x]);
        }
    }
    assert(mt =~= ms.insert(k, v));
}

/// The first pair of a sorted sequence holds the least key of its mapping.
pub proof fn lemma_first_is_least(s: Seq<Pair>, k: Seq<u8>)
    requires
        sorted(s),
        to_map(s).contains_key(k),
    ensures
        s.len() > 0,
        lex_le(s[0].0, k),
{
    let j = index_of(s, k);
    if j > 0 {
        assert(lex_lt(s[0].0, s[j].0));
    }
}

/// A mapping has one sorted sequence of pairs only: the order in which a
/// table yields its pairs depends on what it holds, not on how it came to
/// hold it.
pub proof fn lemma_sorted_unique(s1: Seq<Pair>, s2: Seq<Pair>)
    requires
        sorted(s1),
        sorted(s2),
        to_map(s1) == to_map(s2),
    ensures
        s1 == s2,
    decreases s1.len(),
{
    if s1.len() == 0 {
        if s2.len() > 0 {
            lemma_to_map_at(s2, 0);
            assert(has_key(s1, s2[0].0));
        }
        assert(s1 =~= s2);
    } else {
        lemma_to_map_at(s1, 0);
        lemma_first_is_least(s2, s1[0].0);
        lemma_to_map_at(s2, 0);
        lemma_first_is_least(s1, s2[0].0);
        if s1[0].0 != s2[0].0 {
            lemma_lex_asymmetric(s1[0].0, s2[0].0);
        }
        lemma_to_map_remove(s1, 0);
        lemma_to_map_remove(s2, 0);
        lemma_sorted_unique(s1.remove(0), s2.remove(0));
        assert(s1 =~= seq![s1[0]] + s1.remove(0));
        assert(s2 =~= seq![s2[0]] + s2.remove(0));
    }
}


/// Where a cursor stands in the key space.
#[derive(Debug)]
pub enum Cursor {
    /// Before every key.
    Start,
    /// At the given key: that key and all later ones are still to come.
    From(Vec<u8>),
    /// Just behind the given key: only later keys are still to come.
    After(Vec<u8>),
    /// Behind every key: nothing is to come, whatever the table holds.
    End,
}

/// A cursor as contracts see it.
pub enum CursorView {
    Start,
    From(Seq<u8>),
    After(Seq<u8>),
    End,
}

impl View for Cursor {
    type V = CursorView;

    open spec fn view(&self) -> CursorView {
        match self {
            Cursor::Start => CursorView::Start,
            Cursor::From(k) => CursorView::From(k@),
            Cursor::After(k) => CursorView::After(k@),
            Cursor::End => CursorView::End,
        }
    }
}

impl Cursor {
    /// A fresh cursor at the same place.
    pub fn duplicate(&self) -> (r: Cursor)
        ensures
            r@ == self@,
    {
        match self {
            Cursor::Start => Cursor::Start,
            Cursor::From(k) => Cursor::From(copy_bytes(k)),
            Cursor::After(k) => Cursor::After(copy_bytes(k)),
            Cursor::End => Cursor::End,
        }
    }
}

/// The key `k` is still to come for a cursor at `c`.
pub open spec fn admits(c: CursorView, k: Seq<u8>) -> bool {
    match c {
        CursorView::Start => true,
        CursorView::From(f) => lex_le(f, k),
        CursorView::After(a) => lex_lt(a, k),
        CursorView::End => false,
    }
}

/// What is to come for a cursor stays to come for every later key.
pub proof fn lemma_admits_monotone(c: CursorView, k1: Seq<u8>, k2: Seq<u8>)
    requires
        admits(c, k1),
        lex_lt(k1, k2),
    ensures
        admits(c, k2),
{
    match c {
        CursorView::Start => {},
        CursorView::From(f) => {
            lemma_lex_le_lt(f, k1, k2);
        },
        CursorView::After(a) => {
            lemma_lex_transitive(a, k1, k2);
        },
        CursorView::End => {},
    }
}

/// `p` parts `s` into the pairs that a cursor at `c` has passed (below `p`)
/// and those that are still to come (from `p` on).
pub open spec fn is_boundary(s: Seq<Pair>, c: CursorView, p: int) -> bool {
    &&& 0 <= p <= s.len()
    &&& forall|i: int| 0 <= i < p ==> !admits(c, (#[trigger] s[i]).0)
    &&& forall|i: int| p <= i < s.len() ==> admits(c, (#[trigger] s[i]).0)
}

/// The position that parts `s` for a cursor at `c`.
pub open spec fn boundary(s: Seq<Pair>, c: CursorView) -> int {
    choose|p: int| is_boundary(s, c, p)
}

/// The pairs of `s` that are still to come for a cursor at `c`, in order.
pub open spec fn remaining(s: Seq<Pair>, c: CursorView) -> Seq<Pair> {
    s.subrange(boundary(s, c), s.len() as int)
}

/// At most one position parts a sequence for a cursor.
pub proof fn lemma_boundary_unique(s: Seq<Pair>, c: CursorView, p: int)
    requires
        is_boundary(s, c, p),
    ensures
        boundary(s, c) == p,
        remaining(s, c) == s.subrange(p, s.len() as int),
{
    let q = boundary(s, c);
    if q < p {
        assert(!admits(c, s[q].0));
    } else if p < q {
        assert(!admits(c, s[p].0));
    }
}

/// The pair that comes first for a cursor holds the least key that the cursor
/// admits, and behind that key the rest is to come.
pub proof fn lemma_remaining_step(s: Seq<Pair>, c: CursorView, p: int)
    requires
        sorted(s),
        is_boundary(s, c, p),
        p < s.len(),
    ensures
        remaining(s, c).len() > 0,
        remaining(s, c)[0] == s[p],
        is_boundary(s, CursorView::After(s[p].0), p + 1),
        remaining(s, CursorView::After(s[p].0)) == remaining(s, c).drop_first(),
        admits(c, s[p].0),
        forall|k: Seq<u8>| to_map(s).contains_key(k) && admits(c, k) ==> lex_le(s[p].0, k),
{
    let next = CursorView::After(s[p].0);
    lemma_boundary_unique(s, c, p);
    assert forall|i: int| 0 <= i < p + 1 implies !admits(next, (#[trigger] s[i]).0) by {
        if i < p {
            lemma_lex_asymmetric(s[i].0, s[p].0);
        } else {
            lemma_lex_irreflexive(s[p].0);
        }
    }
    lemma_boundary_unique(s, next, p + 1);
    assert(remaining(s, next) =~= remaining(s, c).drop_first());
    assert forall|k: Seq<u8>| to_map(s).contains_key(k) && admits(c, k) implies lex_le(
        s[p].0,
        k,
    ) by {
        let j = index_of(s, k);
        if j < p {
            assert(!admits(c, s[j].0));
        } else if j > p {
            assert(lex_lt(s[p].0, s[j].0));
        }
    }
}

/// Where nothing is to come for a cursor, the mapping holds no key that the
/// cursor admits.
pub proof fn lemma_remaining_none(s: Seq<Pair>, c: CursorView)
    requires
        is_boundary(s, c, s.len() as int),
    ensures
        remaining(s, c) == Seq::<Pair>::empty(),
        forall|k: Seq<u8>| to_map(s).contains_key(k) ==> !admits(c, k),
{
    lemma_boundary_unique(s, c, s.len() as int);
    assert(remaining(s, c) =~= Seq::<Pair>::empty());
    assert forall|k: Seq<u8>| to_map(s).contains_key(k) implies !admits(c, k) by {
        let j = index_of(s, k);
        assert(!admits(c, s[j].0));
    }
}

/// The table: entries strictly sorted by key.
#[derive(Debug)]
pub struct Table {
    entries: Vec<Entry>,
}

impl View for Table {
    type V = Map<Seq<u8>, Seq<u8>>;

    /// The mapping from key to value.
    open spec fn view(&self) -> Map<Seq<u8>, Seq<u8>> {
        to_map(self.pairs())
    }
}

impl Table {
    /// The table's pairs in the order in which they are kept.
    pub closed spec fn pairs(&self) -> Seq<Pair> {
        pairs_of(self.entries@)
    }

    /// The invariant: keys strictly increase, so no key occurs twice.
    pub open spec fn wf(&self) -> bool {
        sorted(self.pairs())
    }

    /// An empty table.
    pub fn new() -> (r: Table)
        ensures
            r.wf(),
            r.pairs() == Seq::<Pair>::empty(),
            r@ == Map::<Seq<u8>, Seq<u8>>::empty(),
    {
        let r = Table { entries: Vec::new() };
        assert(r.pairs() =~= Seq::<Pair>::empty());
        assert(r@ =~= Map::<Seq<u8>, Seq<u8>>::empty());
        r
    }

    /// The number of entries.
    pub fn len(&self) -> (n: usize)
        ensures
            n == self.pairs().len(),
    {
        self.entries.len()
    }

    /// The position that parts the entries for `cursor`.
    pub fn seek(&self, cursor: &Cursor) -> (p: usize)
        requires
            self.wf(),
        ensures
            is_boundary(self.pairs(), cursor@, p as int),
            p as int == boundary(self.pairs(), cursor@),
    {
        let ghost s = self.pairs();
        let ghost c = cursor@;
        let mut lo: usize = 0;
        let mut hi: usize = self.entries.len();
        while lo < hi
            invariant
                self.wf(),
                s == self.pairs(),
                c == cursor@,
                lo <= hi <= s.len(),
                forall|i: int| 0 <= i < lo ==> !admits(c, (#[trigger] s[i]).0),
                forall|i: int| hi <= i < s.len() ==> admits(c, (#[trigger] s[i]).0),
            decreases hi - lo,
        {
            let mid: usize = lo + (hi - lo) / 2;
            let key = &self.entries[mid].key;
            assert(s[mid as int].0 == key@);
            let to_come = match cursor {
                Cursor::Start => true,
                Cursor::From(f) => !lex_less(key, f),
                Cursor::After(a) => lex_less(a, key),
                Cursor::End => false,
            };
            proof {
                match cursor {
                    Cursor::From(f) => {
                        lemma_lex_total(key@, f@);
                        if lex_lt(f@, key@) {
                            lemma_lex_asymmetric(f@, key@);
                        }
                    },
                    _ => {},
                }
                assert(to_come == admits(c, key@));
            }
            if to_come {
                assert forall|i: int| mid <= i < s.len() implies admits(c, (#[trigger] s[i]).0) by {
                    if mid < i {
                        lemma_admits_monotone(c, s[mid as int].0, s[i].0);
                    }
                }
                hi = mid;
            } else {
                assert forall|i: int| 0 <= i < mid + 1 implies !admits(c, (#[trigger] s[i]).0) by {
                    if i < mid && admits(c, s[i].0) {
                        lemma_admits_monotone(c, s[i].0, s[mid as int].0);
                    }
                }
                lo = mid + 1;
            }
        }
        proof {
            lemma_boundary_unique(s, c, lo as int);
        }
        lo
    }

    /// The entry at position `i`.
    pub fn entry_at(&self, i: usize) -> (e: &Entry)
        requires
            i < self.pairs().len(),
        ensures
            e@ == self.pairs()[i as int],
    {
        &self.entries[i]
    }

    /// The position of `key`, where the table holds it.
    pub fn find(&self, key: &Vec<u8>) -> (r: Option<usize>)
        requires
            self.wf(),
        ensures
            match r {
                Some(i) => i < self.pairs().len() && self.pairs()[i as int].0 == key@,
                None => !has_key(self.pairs(), key@),
            },
            r is Some <==> self@.contains_key(key@),
    {
        let probe = Cursor::From(copy_bytes(key));
        let p = self.seek(&probe);
        let ghost s = self.pairs();
        if p < self.entries.len() && same_bytes(&self.entries[p].key, key) {
            assert(s[p as int].0 == key@);
            Some(p)
        } else {
            assert forall|i: int| 0 <= i < s.len() implies (#[trigger] s[i]).0 != key@ by {
                if s[i].0 == key@ {
                    if i < p {
                        assert(!admits(probe@, s[i].0));
                    } else if i > p {
                        assert(admits(probe@, s[p as int].0));
                        lemma_lex_le_lt(key@, s[p as int].0, s[i].0);
                        lemma_lex_irreflexive(key@);
                    }
                }
            }
            None
        }
    }

    /// The value kept under `key`, if any.
    pub fn get(&self, key: &Vec<u8>) -> (r: Option<&Vec<u8>>)
        requires
            self.wf(),
        ensures
            match r {
                Some(v) => self@.contains_key(key@) && self@[key@] == v@,
                None => !self@.contains_key(key@),
            },
    {
        match self.find(key) {
            Some(i) => {
                proof {
                    lemma_to_map_at(self.pairs(), i as int);
                }
                Some(&self.entries[i].value)
            },
            None => None,
        }
    }

    /// Whether the table holds `key`.
    pub fn contains(&self, key: &Vec<u8>) -> (r: bool)
        requires
            self.wf(),
        ensures
            r == self@.contains_key(key@),
    {
        self.find(key).is_some()
    }
    /// The pair that comes first for `cursor`, if any is to come.
    pub fn first(&self, cursor: &Cursor) -> (r: Option<&Entry>)
        requires
            self.wf(),
        ensures
            match r {
                Some(e) => {
                    &&& remaining(self.pairs(), cursor@).len() > 0
                    &&& e@ == remaining(self.pairs(), cursor@)[0]
                    &&& remaining(self.pairs(), CursorView::After(e.key@)) == remaining(
                        self.pairs(),
                        cursor@,
                    ).drop_first()
                },
                None => remaining(self.pairs(), cursor@) == Seq::<Pair>::empty(),
            },
    {
        let p = self.seek(cursor);
        if p < self.entries.len() {
            proof {
                lemma_remaining_step(self.pairs(), cursor@, p as int);
            }
            Some(&self.entries[p])
        } else {
            proof {
                lemma_remaining_none(self.pairs(), cursor@);
            }
            None
        }
    }

    /// Copies of all pairs that are to come for `cursor`, in order.
    pub fn scan(&self, cursor: &Cursor) -> (r: Vec<Entry>)
        requires
            self.wf(),
        ensures
            pairs_of(r@) == remaining(self.pairs(), cursor@),
    {
        let p = self.seek(cursor);
        let mut out: Vec<Entry> = Vec::new();
        let mut i: usize = p;
        while i < self.entries.len()
            invariant
                p <= i <= self.entries.len(),
                out@.len() == i - p,
                pairs_of(out@) == self.pairs().subrange(p as int, i as int),
            decreases self.entries.len() - i,
        {
            let ghost before = out@;
            out.push(self.entries[i].duplicate());
            proof {
                let part = self.pairs().subrange(p as int, i as int);
                assert forall|j: int| 0 <= j <= i - p implies pairs_of(out@)[j] == self.pairs()[p
                    + j] by {
                    if j < i - p {
                        assert(out@[j] == before[j]);
                        assert(pairs_of(before)[j] == part[j]);
                    }
                }
            }
            i = i + 1;
            assert(pairs_of(out@) =~= self.pairs().subrange(p as int, i as int));
        }
        out
    }

    /// A fresh table holding the same pairs.
    pub fn duplicate(&self) -> (r: Table)
        ensures
            r.pairs() == self.pairs(),
            r@ == self@,
            self.wf() ==> r.wf(),
    {
        let mut out: Vec<Entry> = Vec::new();
        let mut i: usize = 0;
        while i < self.entries.len()
            invariant
                i <= self.entries.len(),
                out@.len() == i,
                pairs_of(out@) == self.pairs().subrange(0, i as int),
            decreases self.entries.len() - i,
        {
            let ghost before = out@;
            out.push(self.entries[i].duplicate());
            proof {
                let part = self.pairs().subrange(0, i as int);
                assert forall|j: int| 0 <= j <= i implies pairs_of(out@)[j] == self.pairs()[j] by {
                    if j < i {
                        assert(out@[j] == before[j]);
                        assert(pairs_of(before)[j] == part[j]);
                    }
                }
            }
            i = i + 1;
            assert(pairs_of(out@) =~= self.pairs().subrange(0, i as int));
        }
        assert(self.pairs().subrange(0, self.entries.len() as int) =~= self.pairs());
        Table { entries: out }
    }

    /// Keeps `value` under `key`, in place of any value kept there before.
    pub fn put(&mut self, key: Vec<u8>, value: Vec<u8>)
        requires
            old(self).wf(),
        ensures
            final(self).wf(),
            final(self)@ == old(self)@.insert(key@, value@),
    {
        let ghost s = self.pairs();
        match self.find(&key) {
            Some(i) => {
                self.entries.set(i, Entry { key, value });
                proof {
                    lemma_to_map_update(s, i as int, value@);
                    assert(self.pairs() =~= s.update(i as int, (s[i as int].0, value@)));
                }
            },
            None => {
                let probe = Cursor::From(copy_bytes(&key));
                let p = self.seek(&probe);
                let ghost k = key@;
                let ghost v = value@;
                self.entries.insert(p, Entry { key, value });
                proof {
                    let t = s.insert(p as int, (k, v));
                    assert(self.pairs() =~= t);
                    assert forall|a: int, b: int| 0 <= a < b < t.len() implies lex_lt(
                        #[trigger] t[a].0,
                        #[trigger] t[b].0,
                    ) by {
                        if a == p {
                            assert(t[b] == s[b - 1]);
                            assert(admits(probe@, s[b - 1].0));
                        } else if b == p {
                            assert(t[a] == s[a]);
                            assert(!admits(probe@, s[a].0));
                            lemma_lex_total(s[a].0, k);
                        } else {
                            let a2 = if a < p { a } else { a - 1 };
                            let b2 = if b < p { b } else { b - 1 };
                            assert(t[a] == s[a2]);
                            assert(t[b] == s[b2]);
                        }
                    }
                    lemma_to_map_insert(s, p as int, k, v);
                }
            },
        }
    }

    /// Drops `key` and its value; a table without `key` stays as it is.
    pub fn remove(&mut self, key: &Vec<u8>)
        requires
            old(self).wf(),
        ensures
            final(self).wf(),
            final(self)@ == old(self)@.remove(key@),
    {
        let ghost s = self.pairs();
        match self.find(key) {
            Some(i) => {
                let _ = self.entries.remove(i);
                proof {
                    assert(self.pairs() =~= s.remove(i as int));
                    lemma_to_map_remove(s, i as int);
                }
            },
            None => {
                assert(self@ =~= old(self)@.remove(key@));
            },
        }
    }

    /// Drops every entry.
    pub fn clear(&mut self)
        ensures
            final(self).wf(),
            final(self).pairs() == Seq::<Pair>::empty(),
            final(self)@ == Map::<Seq<u8>, Seq<u8>>::empty(),
    {
        self.entries.clear();
        assert(self.pairs() =~= Seq::<Pair>::empty());
        assert(self@ =~= Map::<Seq<u8>, Seq<u8>>::empty());
    }
}

} // verus!
