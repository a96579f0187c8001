//! Byte-lexicographic order on byte strings.

use vstd::prelude::*;

verus! {

/// `a` and `b` hold the same bytes at every position below `k`.
pub open spec fn agree(a: Seq<u8>, b: Seq<u8>, k: int) -> bool {
    &&& 0 <= k <= a.len()
    &&& k <= b.len()
    &&& forall|j: int| 0 <= j < k ==> a[j] == b[j]
}

/// `k` is the position at which `a` is decided to come before `b`: the two
/// agree below `k`, and there `a` ends while `b` goes on, or `a` holds the
/// smaller byte.
pub open spec fn splits_at(a: Seq<u8>, b: Seq<u8>, k: int) -> bool {
    &&& agree(a, b, k)
    &&& k < b.len()
    &&& (k == a.len() || a[k] < b[k])
}

/// Strict byte-lexicographic order: `a` comes before `b`.
pub open spec fn lex_lt(a: Seq<u8>, b: Seq<u8>) -> bool {
    exists|k: int| splits_at(a, b, k)
}

/// Non-strict byte-lexicographic order.
pub open spec fn lex_le(a: Seq<u8>, b: Seq<u8>) -> bool {
    a == b || lex_lt(a, b)
}

/// No byte string comes before itself.
pub proof fn lemma_lex_irreflexive(a: Seq<u8>)
    ensures
        !lex_lt(a, a),
{
}

/// Two byte strings that agree up to a common length are equal.
pub proof fn lemma_agree_full(a: Seq<u8>, b: Seq<u8>)
    requires
        a.len() == b.len(),
        agree(a, b, a.len() as int),
    ensures
        a == b,
{
    assert(a =~= b);
}

/// The order is asymmetric.
pub proof fn lemma_lex_asymmetric(a: Seq<u8>, b: Seq<u8>)
    requires
        lex_lt(a, b),
    ensures
        !lex_lt(b, a),
        a != b,
{
    let k = choose|k: int| splits_at(a, b, k);
    assert forall|m: int| !splits_at(b, a, m) by {
        if splits_at(b, a, m) {
            if m < k {
                assert(a[m] == b[m]);
            } else if k < m {
                assert(b[k] == a[k]);
            }
        }
    }
}

/// The order is transitive.
pub proof fn lemma_lex_transitive(a: Seq<u8>, b: Seq<u8>, c: Seq<u8>)
    requires
        lex_lt(a, b),
        lex_lt(b, c),
    ensures
        lex_lt(a, c),
{
    let k1 = choose|k: int| splits_at(a, b, k);
    let k2 = choose|k: int| splits_at(b, c, k);
    if k1 <= k2 {
        assert forall|j: int| 0 <= j < k1 implies a[j] == c[j] by {
            assert(a[j] == b[j]);
            assert(b[j] == c[j]);
        }
        if k1 < k2 {
            assert(b[k1] == c[k1]);
        }
        assert(splits_at(a, c, k1));
    } else {
        assert forall|j: int| 0 <= j < k2 implies a[j] == c[j] by {
            assert(a[j] == b[j]);
            assert(b[j] == c[j]);
        }
        assert(a[k2] == b[k2]);
        assert(splits_at(a, c, k2));
    }
}

/// Mixed transitivity over the non-strict order.
pub proof fn lemma_lex_le_lt(a: Seq<u8>, b: Seq<u8>, c: Seq<u8>)
    requires
        lex_le(a, b),
        lex_lt(b, c),
    ensures
        lex_lt(a, c),
{
    if a != b {
        lemma_lex_transitive(a, b, c);
    }
}

/// Two byte strings that agree below `k` are ordered from `k` on.
proof fn lemma_total_from(a: Seq<u8>, b: Seq<u8>, k: int)
    requires
        agree(a, b, k),
    ensures
        lex_lt(a, b) || a == b || lex_lt(b, a),
    decreases a.len() - k,
{
    if k == a.len() {
        if k == b.len() {
            lemma_agree_full(a, b);
        } else {
            assert(splits_at(a, b, k));
        }
    } else if k == b.len() {
        assert(agree(b, a, k));
        assert(splits_at(b, a, k));
    } else if a[k] < b[k] {
        assert(splits_at(a, b, k));
    } else if b[k] < a[k] {
        assert(agree(b, a, k));
        assert(splits_at(b, a, k));
    } else {
        lemma_total_from(a, b, k + 1);
    }
}

/// The order is total: of two byte strings one comes first, or they are equal.
pub proof fn lemma_lex_total(a: Seq<u8>, b: Seq<u8>)
    ensures
        lex_lt(a, b) || a == b || lex_lt(b, a),
{
    lemma_total_from(a, b, 0);
}

/// Whether `a` comes strictly before `b` in byte-lexicographic order.
pub fn lex_less(a: &Vec<u8>, b: &Vec<u8>) -> (r: bool)
    ensures
        r == lex_lt(a@, b@),
{
    let mut i: usize = 0;
    while i < a.len() && i < b.len()
        invariant
            agree(a@, b@, i as int),
        decreases a.len() - i,
    {
        if a[i] < b[i] {
            assert(splits_at(a@, b@, i as int));
            return true;
        }
        if a[i] > b[i] {
            proof {
                assert(agree(b@, a@, i as int));
                assert(splits_at(b@, a@, i as int));
                lemma_lex_asymmetric(b@, a@);
            }
            return false;
        }
        i = i + 1;
    }
    if i < b.len() {
        assert(splits_at(a@, b@, i as int));
        true
    } else {
        proof {
            if a.len() == b.len() {
                lemma_agree_full(a@, b@);
                lemma_lex_irreflexive(a@);
            } else {
                assert(agree(b@, a@, i as int));
                assert(splits_at(b@, a@, i as int));
                lemma_lex_asymmetric(b@, a@);
            }
        }
        false
    }
}

/// Whether `a` and `b` hold the same bytes.
pub fn same_bytes(a: &Vec<u8>, b: &Vec<u8>) -> (r: bool)
    ensures
        r == (a@ == b@),
{
    if a.len() != b.len() {
        return false;
    }
    let mut i: usize = 0;
    while i < a.len()
        invariant
            a.len() == b.len(),
            agree(a@, b@, i as int),
        decreases a.len() - i,
    {
        if a[i] != b[i] {
            return false;
        }
        i = i + 1;
    }
    proof {
        lemma_agree_full(a@, b@);
    }
    true
}

/// A fresh vector holding the bytes of `a`.
pub fn copy_bytes(a: &Vec<u8>) -> (r: Vec<u8>)
    ensures
        r@ == a@,
{
    let mut out: Vec<u8> = Vec::new();
    let mut i: usize = 0;
    while i < a.len()
        invariant
            i <= a.len(),
            out@ == a@.subrange(0, i as int),
        decreases a.len() - i,
    {
        out.push(a[i]);
        i = i + 1;
        assert(out@ =~= a@.subrange(0, i as int));
    }
    assert(a@.subrange(0, a.len() as int) =~= a@);
    out
}

} // verus!
