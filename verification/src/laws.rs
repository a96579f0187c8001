//! What holds of the bridge whatever is asked of it, in what order.
//!
//! The contracts of the bridge's operations say what one call does. The
//! laws here put calls together: they follow the mapping that an index shows
//! through any number of writes, say what a write through one index leaves
//! alone, in what order an iterator yields, and that a handle whose object
//! was freed names nothing ever after.

use vstd::prelude::*;
use crate::bridge::{Bridge, Kind};
use crate::handle::Handle;
use crate::store::NamespaceView;
use crate::model::{apply, apply_all, found, puts, touches, Write};
use crate::error::BridgeError;
use crate::lex::{lemma_lex_total, lex_le, lex_lt};
use crate::table::{
    admits, boundary, is_boundary, lemma_admits_monotone, lemma_boundary_unique,
    lemma_sorted_unique, remaining, sorted, to_map, CursorView, Pair,
};

verus! {

/// A key under which nothing was put yet is absent: an index that starts
/// empty holds no value under `k`, and does not contain `k`, after any
/// writes none of which puts a value under `k`.
pub proof fn law_absent_until_put(ws: Seq<Write>, k: Seq<u8>)
    requires
        forall|i: int| 0 <= i < ws.len() ==> !puts(#[trigger] ws[i], k),
    ensures
        !apply_all(Map::empty(), ws).contains_key(k),
        found(apply_all(Map::empty(), ws), k) is None,
    decreases ws.len(),
{
    if ws.len() > 0 {
        let front = ws.drop_last();
        assert forall|i: int| 0 <= i < front.len() implies !puts(#[trigger] front[i], k) by {
            assert(front[i] == ws[i]);
        }
        law_absent_until_put(front, k);
        assert(!puts(ws[ws.len() - 1], k));
    }
}

/// What a lookup finds is what the index contains: a value is found under
/// `k` exactly where the mapping contains `k`.
pub proof fn law_get_agrees_with_contains(m: Map<Seq<u8>, Seq<u8>>, k: Seq<u8>)
    ensures
        found(m, k) is Some <==> m.contains_key(k),
{
}

/// A value that was put stays: after `v` is put under `k`, and then any
/// writes none of which touches `k`, the index holds `v` under `k` and
/// contains `k`.
pub proof fn law_put_lasts(m: Map<Seq<u8>, Seq<u8>>, k: Seq<u8>, v: Seq<u8>, ws: Seq<Write>)
    requires
        forall|i: int| 0 <= i < ws.len() ==> !touches(#[trigger] ws[i], k),
    ensures
        apply_all(apply(m, Write::Put(k, v)), ws).contains_key(k),
        found(apply_all(apply(m, Write::Put(k, v)), ws), k) == Some(v),
    decreases ws.len(),
{
    if ws.len() > 0 {
        let front = ws.drop_last();
        assert forall|i: int| 0 <= i < front.len() implies !touches(#[trigger] front[i], k) by {
            assert(front[i] == ws[i]);
        }
        law_put_lasts(m, k, v, front);
        assert(!touches(ws[ws.len() - 1], k));
    }
}

/// A later put under the same key replaces the value.
pub proof fn law_put_overwrites(m: Map<Seq<u8>, Seq<u8>>, k: Seq<u8>, v: Seq<u8>, v2: Seq<u8>)
    ensures
        found(apply(apply(m, Write::Put(k, v)), Write::Put(k, v2)), k) == Some(v2),
{
}

/// After a key is dropped nothing is found under it, and dropping a key
/// that is absent changes nothing.
pub proof fn law_remove(m: Map<Seq<u8>, Seq<u8>>, k: Seq<u8>)
    ensures
        found(apply(m, Write::Remove(k)), k) is None,
        !apply(m, Write::Remove(k)).contains_key(k),
        !m.contains_key(k) ==> apply(m, Write::Remove(k)) == m,
{
    if !m.contains_key(k) {
        assert(m.remove(k) =~= m);
    }
}

/// After every key is dropped the index contains no key.
pub proof fn law_clear(m: Map<Seq<u8>, Seq<u8>>, k: Seq<u8>)
    ensures
        !apply(m, Write::Clear).contains_key(k),
        found(apply(m, Write::Clear), k) is None,
{
}

/// A write through one index leaves every other index as it was, unless
/// the two are on the same table of the same fork: an index on another
/// view, under another name, or for another member of the same family shows
/// after the write what it showed before.
pub proof fn law_write_leaves_others(after: &Bridge, before: &Bridge, map: i64, other: i64)
    requires
        before.wf(),
        before.writable(map) is Ok,
        after.wrote(before, map),
        before.index(other) is Ok,
        before.index(other)->Ok_0.parts().view != before.index(map)->Ok_0.parts().view
            || before.index(other)->Ok_0.parts().namespace@ != before.index(
            map,
        )->Ok_0.parts().namespace@,
    ensures
        after.index(other) == before.index(other),
        after.shown(other) == before.shown(other),
{
    let i = before.index(map)->Ok_0.parts();
    let o = before.index(other)->Ok_0;
    assert(after.backing(o) is Ok == before.backing(o) is Ok);
}

/// An index on a snapshot takes no write: whatever the write, the call
/// fails with [`BridgeError::IllegalMutation`], and every index, the one
/// written to among them, shows afterwards what it showed before.
pub proof fn law_snapshot_takes_no_write(
    after: &Bridge,
    before: &Bridge,
    map: i64,
    w: Write,
    r: Result<(), BridgeError>,
    other: i64,
)
    requires
        before.index(map) is Ok,
        !before.index(map)->Ok_0.is_fork(),
        after.written(before, map, w, r),
    ensures
        r == Err::<(), BridgeError>(BridgeError::IllegalMutation),
        after.unchanged(before),
        after.shown(other) == before.shown(other),
{
}

/// An index on a view that was just taken of a database that was just made
/// shows nothing: it holds no value under any key, and contains no key.
pub proof fn law_new_database_shows_nothing(
    s0: &Bridge,
    s1: &Bridge,
    s2: &Bridge,
    s3: &Bridge,
    db: i64,
    writable: bool,
    view: i64,
    ns: NamespaceView,
    map: i64,
    k: Seq<u8>,
)
    requires
        s1.database_made(s0, Ok(db)),
        s2.viewed(s1, db, writable, Ok(view)),
        s3.indexed(s2, ns, view, Ok(map)),
    ensures
        s3.shown(map) == Ok::<Seq<Pair>, BridgeError>(Seq::empty()),
        s3.get_result(map, k) == Ok::<Option<Seq<u8>>, BridgeError>(None),
        s3.contains_result(map, k) == Ok::<bool, BridgeError>(false),
{
    let d = s1.database(db)->Ok_0;
    assert(s1.database(db) is Ok);
    assert(d.state().pairs(ns) == Seq::<Pair>::empty());
    assert(s2.view(view) is Ok);
    let v = s2.view(view)->Ok_0;
    assert(v.state().pairs(ns) == d.state().pairs(ns));
}

/// After `v` is put under `k` through an index, the index holds `v` under
/// `k` and contains `k`.
pub proof fn law_put_then_get(after: &Bridge, before: &Bridge, map: i64, k: Seq<u8>, v: Seq<u8>)
    requires
        after.written(before, map, Write::Put(k, v), Ok(())),
    ensures
        after.get_result(map, k) == Ok::<Option<Seq<u8>>, BridgeError>(Some(v)),
        after.contains_result(map, k) == Ok::<bool, BridgeError>(true),
{
}

/// After `k` is dropped through an index, the index holds nothing under
/// `k`; and dropping a key that the index does not contain succeeds and
/// leaves what the index shows as it was.
pub proof fn law_remove_then_get(after: &Bridge, before: &Bridge, map: i64, k: Seq<u8>)
    requires
        before.wf(),
        after.wf(),
        after.written(before, map, Write::Remove(k), Ok(())),
    ensures
        after.get_result(map, k) == Ok::<Option<Seq<u8>>, BridgeError>(None),
        after.contains_result(map, k) == Ok::<bool, BridgeError>(false),
        before.contains_result(map, k) == Ok::<bool, BridgeError>(false) ==> after.shown(map)
            == before.shown(map),
        before.writable(map) is Ok,
{
    if before.contains_result(map, k) == Ok::<bool, BridgeError>(false) {
        let s = before.shown(map)->Ok_0;
        let t = after.shown(map)->Ok_0;
        law_remove(to_map(s), k);
        law_shown_sorted(before, map);
        law_shown_sorted(after, map);
        lemma_sorted_unique(s, t);
    }
}

/// After an index is cleared it contains no key.
pub proof fn law_clear_then_contains(after: &Bridge, before: &Bridge, map: i64, k: Seq<u8>)
    requires
        after.written(before, map, Write::Clear, Ok(())),
    ensures
        after.get_result(map, k) == Ok::<Option<Seq<u8>>, BridgeError>(None),
        after.contains_result(map, k) == Ok::<bool, BridgeError>(false),
{
}

/// The members of a family are apart: a write through the index of one
/// member leaves the index of a member with another identifier as it was.
/// A key that is put into the one is not thereby contained in the other.
pub proof fn law_family_members_are_apart(
    after: &Bridge,
    before: &Bridge,
    map: i64,
    w: Write,
    other: i64,
    k: Seq<u8>,
)
    requires
        before.wf(),
        after.written(before, map, w, Ok(())),
        before.index(other) is Ok,
        before.index(map) is Ok ==> {
            &&& before.index(map)->Ok_0.parts().namespace@.name == before.index(
                other,
            )->Ok_0.parts().namespace@.name
            &&& before.index(map)->Ok_0.parts().namespace@.family is Some
            &&& before.index(other)->Ok_0.parts().namespace@.family is Some
            &&& before.index(map)->Ok_0.parts().namespace@.family != before.index(
                other,
            )->Ok_0.parts().namespace@.family
        },
    ensures
        after.shown(other) == before.shown(other),
        after.contains_result(other, k) == before.contains_result(other, k),
{
    law_write_leaves_others(after, before, map, other);
}

/// What an index shows depends on the mapping it holds only, not on the
/// order in which its pairs were put: two indexes that hold the same mapping
/// show the same pairs in the same order.
pub proof fn law_order_depends_on_contents(a: &Bridge, map_a: i64, b: &Bridge, map_b: i64)
    requires
        a.wf(),
        b.wf(),
        a.shown(map_a) is Ok,
        b.shown(map_b) is Ok,
        to_map(a.shown(map_a)->Ok_0) == to_map(b.shown(map_b)->Ok_0),
    ensures
        a.shown(map_a) == b.shown(map_b),
{
    law_shown_sorted(a, map_a);
    law_shown_sorted(b, map_b);
    lemma_sorted_unique(a.shown(map_a)->Ok_0, b.shown(map_b)->Ok_0);
}

/// No two handles stand for the same raw value.
pub proof fn law_raw_handles_differ(a: Handle, b: Handle)
    requires
        a.raw() == b.raw(),
    ensures
        a == b,
{
}

/// A handle is freed once: after its object was freed it names nothing, so
/// a second call to free it fails with [`BridgeError::UseAfterFree`].
pub proof fn law_free_twice_is_an_error(after: &Bridge, before: &Bridge, raw: i64, kind: Kind)
    requires
        after.freed(before, raw, kind, Ok(())),
    ensures
        after.object(raw) == Err::<crate::bridge::Object, BridgeError>(BridgeError::UseAfterFree),
        after.typed(raw, kind) == Err::<crate::bridge::Object, BridgeError>(
            BridgeError::UseAfterFree,
        ),
{
}

/// A handle that names nothing any more never names anything again: no
/// object that is made later comes under it.
pub proof fn law_dead_handle_stays_dead(after: &Bridge, before: &Bridge, made: i64, h: Handle)
    requires
        before.issued(h),
        !before.objects().contains_key(h),
        after.added(before, made),
    ensures
        after.issued(h),
        !after.objects().contains_key(h),
        Handle::decoded(made as int) != Some(h),
{
}

/// An index shows its pairs in strictly increasing byte-lexicographic
/// order of their keys, whatever the order in which they were put.
pub proof fn law_shown_sorted(bridge: &Bridge, map: i64)
    requires
        bridge.wf(),
        bridge.shown(map) is Ok,
    ensures
        sorted(bridge.shown(map)->Ok_0),
{
    bridge.lemma_shown_sorted(map);
}

/// Some position parts a sorted sequence for every cursor.
proof fn lemma_boundary_from(s: Seq<Pair>, c: CursorView, i: int) -> (p: int)
    requires
        sorted(s),
        0 <= i <= s.len(),
        forall|j: int| 0 <= j < i ==> !admits(c, (#[trigger] s[j]).0),
    ensures
        is_boundary(s, c, p),
    decreases s.len() - i,
{
    if i == s.len() {
        i
    } else if admits(c, s[i].0) {
        assert forall|j: int| i <= j < s.len() implies admits(c, (#[trigger] s[j]).0) by {
            if i < j {
                lemma_admits_monotone(c, s[i].0, s[j].0);
            }
        }
        i
    } else {
        lemma_boundary_from(s, c, i + 1)
    }
}

/// An iterator from the start yields every pair of its index, in the
/// index's order.
pub proof fn law_iter_yields_all(s: Seq<Pair>)
    ensures
        remaining(s, CursorView::Start) == s,
{
    lemma_boundary_unique(s, CursorView::Start, 0);
    assert(s.subrange(0, s.len() as int) =~= s);
}

/// An iterator from a key yields exactly the rest of the index's pairs
/// from the first key that is not below the given one: every pair before
/// that place has a key below `from`, none of them is yielded, and every
/// pair from that place on is yielded, in the index's order.
pub proof fn law_iter_from_yields_suffix(s: Seq<Pair>, from: Seq<u8>)
    requires
        sorted(s),
    ensures
        ({
            let p = boundary(s, CursorView::From(from));
            &&& 0 <= p <= s.len()
            &&& remaining(s, CursorView::From(from)) == s.subrange(p, s.len() as int)
            &&& forall|i: int| 0 <= i < p ==> lex_lt((#[trigger] s[i]).0, from)
            &&& forall|i: int| p <= i < s.len() ==> lex_le(from, (#[trigger] s[i]).0)
        }),
        sorted(remaining(s, CursorView::From(from))),
{
    let c = CursorView::From(from);
    let p = lemma_boundary_from(s, c, 0);
    lemma_boundary_unique(s, c, p);
    assert forall|i: int| 0 <= i < p implies lex_lt((#[trigger] s[i]).0, from) by {
        assert(!admits(c, s[i].0));
        lemma_lex_total(s[i].0, from);
    }
    let rest = remaining(s, c);
    assert forall|i: int, j: int| 0 <= i < j < rest.len() implies lex_lt(
        #[trigger] rest[i].0,
        #[trigger] rest[j].0,
    ) by {
        assert(rest[i] == s[p + i]);
        assert(rest[j] == s[p + j]);
    }
}

/// An iterator that has come to its end stays there: nothing is to come for
/// it, whatever its index holds by then.
pub proof fn law_end_is_final(s: Seq<Pair>)
    ensures
        remaining(s, CursorView::End) == Seq::<Pair>::empty(),
{
    lemma_boundary_unique(s, CursorView::End, s.len() as int);
    assert(remaining(s, CursorView::End) =~= Seq::<Pair>::empty());
}

} // verus!
