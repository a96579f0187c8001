//! The bridge: every object that the host holds a handle to, and the
//! operations that the host asks for by handle.
//!
//! Each operation resolves its handles first and reports a handle that names
//! no live object ([`BridgeError::UseAfterFree`]) or an object of another
//! kind ([`BridgeError::TypeConfusion`]) before it does anything else. An
//! operation that fails changes nothing.
//!
//! An iterator does not copy the table it walks. It remembers the last key it
//! yielded, and each step looks up the next key in the view as it is then: a
//! write made to a fork between two steps is seen by the later step if it
//! lies ahead of the iterator, and not otherwise.

use vstd::prelude::*;
use crate::db::Database;
use crate::error::BridgeError;
use crate::handle::{lemma_decoded, Handle, HandleTable, MAX_SLOTS};
use crate::index::{Index, IndexType, Iter, IterKind};
use crate::lex::copy_bytes;
use crate::model::{apply, bytes_view, found, Write};
use crate::store::{Namespace, NamespaceView};
use crate::table::{
    lemma_remaining_none, remaining, sorted, to_map, Cursor, CursorView, Entry, Pair,
};

verus! {

/// An object that a handle can name.
#[derive(Debug)]
pub enum Object {
    Database(Database),
    View(crate::db::View),
    Index(IndexType),
    Iter(Iter),
}

/// The kinds of object that a call can expect behind a handle.
#[derive(Clone, Copy, Debug, PartialEq, Eq, Structural)]
pub enum Kind {
    Database,
    View,
    Index,
    Iter(IterKind),
}

/// The object is of the given kind.
pub open spec fn is_kind(o: Object, kind: Kind) -> bool {
    match (o, kind) {
        (Object::Database(_), Kind::Database) => true,
        (Object::View(_), Kind::View) => true,
        (Object::Index(_), Kind::Index) => true,
        (Object::Iter(it), Kind::Iter(k)) => it.kind == k,
        _ => false,
    }
}

/// Two objects are of one kind: both databases, both snapshots, both forks,
/// both indexes, or both iterators.
pub open spec fn same_kind(a: Object, b: Object) -> bool {
    match (a, b) {
        (Object::Database(_), Object::Database(_)) => true,
        (Object::View(x), Object::View(y)) => x.is_fork() == y.is_fork(),
        (Object::Index(_), Object::Index(_)) => true,
        (Object::Iter(_), Object::Iter(_)) => true,
        _ => false,
    }
}

/// The two maps hold the same objects under every handle but `h`.
pub open spec fn same_but(a: Map<Handle, Object>, b: Map<Handle, Object>, h: Handle) -> bool {
    forall|g: Handle|
        #![trigger a.contains_key(g)]
        #![trigger a[g]]
        g != h ==> a.contains_key(g) == b.contains_key(g) && (a.contains_key(g) ==> a[g] == b[g])
}

/// The object is a view: a fork if `writable`, a snapshot if not.
pub open spec fn is_view_of(o: Object, writable: bool) -> bool {
    match o {
        Object::View(v) => v.is_fork() == writable,
        _ => false,
    }
}

/// A write that is about to be carried out.
enum Pending {
    Put(Vec<u8>, Vec<u8>),
    Remove(Vec<u8>),
    Clear,
}

impl View for Pending {
    type V = Write;

    closed spec fn view(&self) -> Write {
        match self {
            Pending::Put(k, v) => Write::Put(k@, v@),
            Pending::Remove(k) => Write::Remove(k@),
            Pending::Clear => Write::Clear,
        }
    }
}

/// The result of a step as contracts see it.
pub open spec fn step_view(r: Result<Option<Entry>, BridgeError>) -> Result<
    Option<Pair>,
    BridgeError,
> {
    match r {
        Ok(Some(e)) => Ok(Some(e@)),
        Ok(None) => Ok(None),
        Err(e) => Err(e),
    }
}

/// The bridge.
pub struct Bridge {
    table: HandleTable<Object>,
}

impl Bridge {
    /// The live handles, each with the object that it names.
    pub closed spec fn objects(&self) -> Map<Handle, Object> {
        self.table@
    }

    /// The handle was given out at some time, whether its object is still
    /// alive or not.
    pub closed spec fn issued(&self, h: Handle) -> bool {
        self.table.issued(h)
    }

    /// The number of slots that the handle table has made so far.
    pub closed spec fn slot_count(&self) -> nat {
        self.table.slot_count()
    }

    /// The number of empty slots that can be filled again.
    pub closed spec fn reusable(&self) -> nat {
        self.table.reusable()
    }

    /// No further handle can be given out.
    pub open spec fn is_full(&self) -> bool {
        self.reusable() == 0 && self.slot_count() >= MAX_SLOTS
    }

    /// What must hold of an object beside the others: a database or a view
    /// is well-formed; the view of an index was given out and, while it
    /// lives, is a view of the index's kind; the index of an iterator was
    /// given out and, while it lives, is an index.
    pub open spec fn object_ok(&self, o: Object) -> bool {
        match o {
            Object::Database(d) => d.wf(),
            Object::View(v) => v.wf(),
            Object::Index(i) => {
                &&& self.issued(i.parts().view)
                &&& self.objects().contains_key(i.parts().view) ==> is_view_of(
                    self.objects()[i.parts().view],
                    i.is_fork(),
                )
            },
            Object::Iter(it) => {
                &&& self.issued(it.index)
                &&& self.objects().contains_key(it.index) ==> self.objects()[it.index] is Index
            },
        }
    }

    /// The invariant of the bridge.
    pub closed spec fn wf(&self) -> bool {
        &&& self.table.wf()
        &&& forall|h: Handle| #[trigger]
            self.objects().contains_key(h) ==> self.object_ok(self.objects()[h])
    }

    /// The object that the raw handle names.
    pub open spec fn object(&self, raw: i64) -> Result<Object, BridgeError> {
        match Handle::decoded(raw as int) {
            Some(h) => if self.objects().contains_key(h) {
                Ok(self.objects()[h])
            } else {
                Err(BridgeError::UseAfterFree)
            },
            None => Err(BridgeError::UseAfterFree),
        }
    }

    /// The database that the raw handle names.
    pub open spec fn database(&self, raw: i64) -> Result<Database, BridgeError> {
        match self.object(raw) {
            Ok(Object::Database(d)) => Ok(d),
            Ok(_) => Err(BridgeError::TypeConfusion),
            Err(e) => Err(e),
        }
    }

    /// The view that the raw handle names.
    pub open spec fn view(&self, raw: i64) -> Result<crate::db::View, BridgeError> {
        match self.object(raw) {
            Ok(Object::View(v)) => Ok(v),
            Ok(_) => Err(BridgeError::TypeConfusion),
            Err(e) => Err(e),
        }
    }

    /// The index that the raw handle names.
    pub open spec fn index(&self, raw: i64) -> Result<IndexType, BridgeError> {
        match self.object(raw) {
            Ok(Object::Index(i)) => Ok(i),
            Ok(_) => Err(BridgeError::TypeConfusion),
            Err(e) => Err(e),
        }
    }

    /// The iterator of the given kind that the raw handle names. An
    /// iterator of another kind is an object of another kind.
    pub open spec fn iterator(&self, raw: i64, kind: IterKind) -> Result<Iter, BridgeError> {
        match self.object(raw) {
            Ok(Object::Iter(it)) => if it.kind == kind {
                Ok(it)
            } else {
                Err(BridgeError::TypeConfusion)
            },
            Ok(_) => Err(BridgeError::TypeConfusion),
            Err(e) => Err(e),
        }
    }

    /// Nothing has changed since `before`.
    pub open spec fn unchanged(&self, before: &Bridge) -> bool {
        &&& self.objects() == before.objects()
        &&& forall|g: Handle| self.issued(g) <==> before.issued(g)
        &&& self.slot_count() == before.slot_count()
        &&& self.reusable() == before.reusable()
    }

    /// Since `before` one object has come, under the raw handle `raw`, which
    /// was never given out before, and nothing else has changed.
    pub open spec fn added(&self, before: &Bridge, raw: i64) -> bool {
        match Handle::decoded(raw as int) {
            Some(h) => {
                &&& !before.issued(h)
                &&& !before.objects().contains_key(h)
                &&& self.objects().contains_key(h)
                &&& same_but(self.objects(), before.objects(), h)
                &&& forall|g: Handle| self.issued(g) <==> before.issued(g) || g == h
                &&& self.slot_count() <= before.slot_count() + 1
            },
            None => false,
        }
    }

    /// Since `before` the object under the raw handle `raw` has gone, and
    /// nothing else has changed: the handle names nothing from now on.
    pub open spec fn removed(&self, before: &Bridge, raw: i64) -> bool {
        match Handle::decoded(raw as int) {
            Some(h) => {
                &&& before.objects().contains_key(h)
                &&& !self.objects().contains_key(h)
                &&& same_but(self.objects(), before.objects(), h)
                &&& forall|g: Handle| self.issued(g) <==> before.issued(g)
                &&& self.slot_count() == before.slot_count()
            },
            None => false,
        }
    }

    /// Since `before` the object under the handle `h` has changed, and
    /// nothing else has.
    pub open spec fn changed_at(&self, before: &Bridge, h: Handle) -> bool {
        &&& before.objects().contains_key(h)
        &&& self.objects().contains_key(h)
        &&& same_but(self.objects(), before.objects(), h)
        &&& forall|g: Handle| self.issued(g) <==> before.issued(g)
        &&& self.slot_count() == before.slot_count()
        &&& self.reusable() == before.reusable()
    }

    /// The invariant holds after a step that gives out no handle twice,
    /// keeps the kind of every object that stays, and leaves or puts in
    /// place only objects that were in order before the step.
    proof fn lemma_wf_step(&self, before: &Bridge)
        requires
            before.wf(),
            self.table.wf(),
            forall|g: Handle| before.issued(g) ==> self.issued(g),
            forall|g: Handle|
                before.issued(g) && #[trigger] self.objects().contains_key(g)
                    ==> before.objects().contains_key(g) && same_kind(
                    self.objects()[g],
                    before.objects()[g],
                ),
            forall|h: Handle| #[trigger]
                self.objects().contains_key(h) ==> before.object_ok(self.objects()[h]),
        ensures
            self.wf(),
    {
        assert forall|h: Handle| #[trigger] self.objects().contains_key(h) implies self.object_ok(
            self.objects()[h],
        ) by {
            let o = self.objects()[h];
            assert(before.object_ok(o));
            match o {
                Object::Index(i) => {
                    let v = i.parts().view;
                    if self.objects().contains_key(v) {
                        assert(before.objects().contains_key(v));
                    }
                },
                Object::Iter(it) => {
                    if self.objects().contains_key(it.index) {
                        assert(before.objects().contains_key(it.index));
                    }
                },
                _ => {},
            }
        }
    }

    /// The view behind an index: gone ([`BridgeError::UseAfterFree`]) once
    /// it was freed.
    pub open spec fn backing(&self, i: IndexType) -> Result<crate::db::View, BridgeError> {
        if self.objects().contains_key(i.parts().view) {
            match self.objects()[i.parts().view] {
                Object::View(v) => Ok(v),
                _ => Err(BridgeError::TypeConfusion),
            }
        } else {
            Err(BridgeError::UseAfterFree)
        }
    }

    /// The pairs that the index under `map` shows, in key order.
    pub open spec fn shown(&self, map: i64) -> Result<Seq<Pair>, BridgeError> {
        match self.index(map) {
            Ok(i) => match self.backing(i) {
                Ok(v) => Ok(v.state().pairs(i.parts().namespace@)),
                Err(e) => Err(e),
            },
            Err(e) => Err(e),
        }
    }

    /// The pairs that the index under `map` shows, where it takes writes.
    /// An index on a snapshot takes none
    /// ([`BridgeError::IllegalMutation`]), whether its view still lives or
    /// not.
    pub open spec fn writable(&self, map: i64) -> Result<Seq<Pair>, BridgeError> {
        match self.index(map) {
            Ok(i) => if i.is_fork() {
                self.shown(map)
            } else {
                Err(BridgeError::IllegalMutation)
            },
            Err(e) => Err(e),
        }
    }

    /// Since `before` the fork behind the index under `map` has changed in
    /// the index's own table, and nothing else has changed: no other table
    /// of that fork, no other view, no other object.
    pub open spec fn wrote(&self, before: &Bridge, map: i64) -> bool {
        let i = before.index(map)->Ok_0.parts();
        &&& self.changed_at(before, i.view)
        &&& match (self.objects()[i.view], before.objects()[i.view]) {
            (Object::View(now), Object::View(then)) => {
                &&& now.is_fork()
                &&& then.is_fork()
                &&& now.state().same_elsewhere(&then.state(), i.namespace@)
            },
            _ => false,
        }
    }

    /// The index that an iterator walks: gone
    /// ([`BridgeError::UseAfterFree`]) once it was freed.
    pub open spec fn walked(&self, it: Iter) -> Result<IndexType, BridgeError> {
        if self.objects().contains_key(it.index) {
            match self.objects()[it.index] {
                Object::Index(i) => Ok(i),
                _ => Err(BridgeError::TypeConfusion),
            }
        } else {
            Err(BridgeError::UseAfterFree)
        }
    }

    /// The pairs that are still to come, in key order, for the iterator of
    /// the given kind under `iter`, as its view stands now.
    pub open spec fn upcoming(&self, iter: i64, kind: IterKind) -> Result<Seq<Pair>, BridgeError> {
        match self.iterator(iter, kind) {
            Ok(it) => match self.walked(it) {
                Ok(i) => match self.backing(i) {
                    Ok(v) => Ok(remaining(v.state().pairs(i.parts().namespace@), it.cursor@)),
                    Err(e) => Err(e),
                },
                Err(e) => Err(e),
            },
            Err(e) => Err(e),
        }
    }

    /// What a call that makes an iterator of the given kind over the index
    /// under `map`, starting at `cursor`, has done when it returns `r`. It
    /// fails, and changes nothing, where the index cannot be read, and with
    /// [`BridgeError::NativeFault`] where the bridge is full. Else the
    /// iterator has come under a handle of its own, and what is to come for
    /// it is what the index shows from `cursor` on.
    pub open spec fn opened(
        &self,
        before: &Bridge,
        map: i64,
        kind: IterKind,
        cursor: CursorView,
        r: Result<i64, BridgeError>,
    ) -> bool {
        match before.shown(map) {
            Ok(s) => if before.is_full() {
                r == Err::<i64, BridgeError>(BridgeError::NativeFault) && self.unchanged(before)
            } else {
                &&& r is Ok
                &&& r->Ok_0 != 0
                &&& self.added(before, r->Ok_0)
                &&& self.iterator(r->Ok_0, kind) is Ok
                &&& Some(self.iterator(r->Ok_0, kind)->Ok_0.index) == Handle::decoded(map as int)
                &&& self.iterator(r->Ok_0, kind)->Ok_0.cursor@ == cursor
                &&& self.upcoming(r->Ok_0, kind) == Ok::<Seq<Pair>, BridgeError>(
                    remaining(s, cursor),
                )
            },
            Err(e) => r == Err::<i64, BridgeError>(e) && self.unchanged(before),
        }
    }

    /// What a step of the iterator of the given kind under `iter` yields:
    /// the first pair that is to come, or nothing where nothing is to come.
    /// The step fails where the iterator, its index or its view cannot be
    /// resolved.
    pub open spec fn yielded(&self, iter: i64, kind: IterKind) -> Result<Option<Pair>, BridgeError> {
        match self.upcoming(iter, kind) {
            Ok(s) => Ok(
                if s.len() == 0 {
                    None
                } else {
                    Some(s[0])
                },
            ),
            Err(e) => Err(e),
        }
    }

    /// What a step of the iterator of the given kind under `iter` has
    /// changed since `before`. A step that fails changes nothing. Else the
    /// iterator stands behind the key of the pair it yielded, and the pairs
    /// behind that one are to come; where nothing was to come it stands at
    /// the end for good. Nothing but the iterator changes.
    pub open spec fn stepped(&self, before: &Bridge, iter: i64, kind: IterKind) -> bool {
        match before.upcoming(iter, kind) {
            Ok(s) => {
                &&& self.changed_at(before, Handle::decoded(iter as int)->Some_0)
                &&& self.iterator(iter, kind) is Ok
                &&& self.iterator(iter, kind)->Ok_0.index == before.iterator(iter, kind)->Ok_0.index
                &&& if s.len() == 0 {
                    &&& self.iterator(iter, kind)->Ok_0.cursor@ == CursorView::End
                    &&& self.upcoming(iter, kind) == Ok::<Seq<Pair>, BridgeError>(Seq::empty())
                } else {
                    &&& self.iterator(iter, kind)->Ok_0.cursor@ == CursorView::After(s[0].0)
                    &&& self.upcoming(iter, kind) == Ok::<Seq<Pair>, BridgeError>(s.drop_first())
                }
            },
            Err(_) => self.unchanged(before),
        }
    }

    /// The object of the given kind that the raw handle names. A live
    /// object of another kind is a [`BridgeError::TypeConfusion`].
    pub open spec fn typed(&self, raw: i64, kind: Kind) -> Result<Object, BridgeError> {
        match self.object(raw) {
            Ok(o) => if is_kind(o, kind) {
                Ok(o)
            } else {
                Err(BridgeError::TypeConfusion)
            },
            Err(e) => Err(e),
        }
    }

    /// What a call that makes an object has done, as far as all such calls
    /// agree, when it returns `r`. With a full bridge it fails with
    /// [`BridgeError::NativeFault`] and changes nothing. Else the object has
    /// come under a raw handle that was never given out before and is not
    /// [`crate::handle::NULL_HANDLE`], and nothing else has changed.
    pub open spec fn fresh(&self, before: &Bridge, r: Result<i64, BridgeError>) -> bool {
        if before.is_full() {
            r == Err::<i64, BridgeError>(BridgeError::NativeFault) && self.unchanged(before)
        } else {
            r is Ok && r->Ok_0 != 0 && self.added(before, r->Ok_0)
        }
    }

    /// What [`Bridge::create_database`] has done when it returns `r`: the
    /// new object is a database without entries.
    pub open spec fn database_made(&self, before: &Bridge, r: Result<i64, BridgeError>) -> bool {
        &&& self.fresh(before, r)
        &&& r is Ok ==> {
            &&& self.database(r->Ok_0) is Ok
            &&& forall|ns: NamespaceView|
                self.database(r->Ok_0)->Ok_0.state().pairs(ns) == Seq::<Pair>::empty()
        }
    }

    /// What a call that takes a view of the database under `db` has done
    /// when it returns `r`. It fails, and changes nothing, where `db` names
    /// no database. Else the new object is a view, a fork if `writable` and
    /// a snapshot if not, that shows what the database holds.
    pub open spec fn viewed(
        &self,
        before: &Bridge,
        db: i64,
        writable: bool,
        r: Result<i64, BridgeError>,
    ) -> bool {
        match before.database(db) {
            Ok(d) => {
                &&& self.fresh(before, r)
                &&& r is Ok ==> {
                    &&& self.view(r->Ok_0) is Ok
                    &&& self.view(r->Ok_0)->Ok_0.is_fork() == writable
                    &&& self.view(r->Ok_0)->Ok_0.state().same_everywhere(&d.state())
                }
            },
            Err(e) => r == Err::<i64, BridgeError>(e) && self.unchanged(before),
        }
    }

    /// What a call that makes an index at `ns` on the view under `view` has
    /// done when it returns `r`. It fails, and changes nothing, where `view`
    /// names no view. Else the new object is an index at `ns` on that view,
    /// writable exactly if the view is a fork; it shows what the view holds
    /// at `ns`.
    pub open spec fn indexed(
        &self,
        before: &Bridge,
        ns: NamespaceView,
        view: i64,
        r: Result<i64, BridgeError>,
    ) -> bool {
        match before.view(view) {
            Ok(v) => {
                &&& self.fresh(before, r)
                &&& r is Ok ==> {
                    &&& self.index(r->Ok_0) is Ok
                    &&& self.index(r->Ok_0)->Ok_0.is_fork() == v.is_fork()
                    &&& Some(self.index(r->Ok_0)->Ok_0.parts().view) == Handle::decoded(view as int)
                    &&& self.index(r->Ok_0)->Ok_0.parts().namespace@ == ns
                    &&& self.shown(r->Ok_0) == Ok::<Seq<Pair>, BridgeError>(v.state().pairs(ns))
                }
            },
            Err(e) => r == Err::<i64, BridgeError>(e) && self.unchanged(before),
        }
    }

    /// What [`Bridge::destroy`] has done when it returns `r`. It fails, and
    /// changes nothing, where `raw` names no live object of the given kind.
    /// Else that object has gone and nothing else has changed.
    pub open spec fn freed(
        &self,
        before: &Bridge,
        raw: i64,
        kind: Kind,
        r: Result<(), BridgeError>,
    ) -> bool {
        match before.typed(raw, kind) {
            Ok(_) => r is Ok && self.removed(before, raw),
            Err(e) => r == Err::<(), BridgeError>(e) && self.unchanged(before),
        }
    }

    /// What [`Bridge::get`] returns for the index under `map` and the key
    /// `key`: the value kept under the key, or nothing. The call fails where
    /// `map` names no index, or the view behind the index was freed.
    pub open spec fn get_result(&self, map: i64, key: Seq<u8>) -> Result<
        Option<Seq<u8>>,
        BridgeError,
    > {
        match self.shown(map) {
            Ok(s) => Ok(found(to_map(s), key)),
            Err(e) => Err(e),
        }
    }

    /// What [`Bridge::contains`] returns for the index under `map` and the
    /// key `key`: whether [`Bridge::get`] finds a value there. It fails
    /// where `get` fails.
    pub open spec fn contains_result(&self, map: i64, key: Seq<u8>) -> Result<bool, BridgeError> {
        match self.get_result(map, key) {
            Ok(v) => Ok(v is Some),
            Err(e) => Err(e),
        }
    }

    /// Whether the index under `map` takes writes: a failure where `map`
    /// names no index, [`BridgeError::IllegalMutation`] where the index is on
    /// a snapshot.
    pub open spec fn write_allowed(&self, map: i64) -> Result<(), BridgeError> {
        match self.index(map) {
            Ok(i) => if i.is_fork() {
                Ok(())
            } else {
                Err(BridgeError::IllegalMutation)
            },
            Err(e) => Err(e),
        }
    }

    /// What a write `w` through the index under `map` has done when the
    /// call returns `r`. It fails, and changes nothing, where `map` names no
    /// index, where the index is on a snapshot
    /// ([`BridgeError::IllegalMutation`]), and where the fork behind the
    /// index was freed. Else it succeeds, the index shows the mapping that
    /// `w` makes of the one it showed, and nothing else has changed.
    pub open spec fn written(
        &self,
        before: &Bridge,
        map: i64,
        w: Write,
        r: Result<(), BridgeError>,
    ) -> bool {
        match before.writable(map) {
            Ok(s) => {
                &&& r is Ok
                &&& self.wrote(before, map)
                &&& self.shown(map) is Ok
                &&& to_map(self.shown(map)->Ok_0) == apply(to_map(s), w)
            },
            Err(e) => r == Err::<(), BridgeError>(e) && self.unchanged(before),
        }
    }

    /// In a well-formed bridge every index shows its pairs strictly sorted
    /// by key.
    pub proof fn lemma_shown_sorted(&self, map: i64)
        requires
            self.wf(),
            self.shown(map) is Ok,
        ensures
            sorted(self.shown(map)->Ok_0),
    {
        let i = self.index(map)->Ok_0;
        let v = self.backing(i)->Ok_0;
        assert(self.objects().contains_key(i.parts().view));
        assert(self.object_ok(self.objects()[i.parts().view]));
        v.state().lemma_pairs_sorted(i.parts().namespace@);
    }

    /// A bridge without objects.
    pub fn new() -> (r: Bridge)
        ensures
            r.wf(),
            r.objects() == Map::<Handle, Object>::empty(),
            forall|h: Handle| !r.issued(h),
            r.slot_count() == 0,
            r.reusable() == 0,
    {
        Bridge { table: HandleTable::new() }
    }

    /// The object that the raw handle names.
    fn lookup(&self, raw: i64) -> (r: Result<&Object, BridgeError>)
        requires
            self.wf(),
        ensures
            match r {
                Ok(o) => self.object(raw) == Ok::<Object, BridgeError>(*o)
                    && Handle::decoded(raw as int) is Some && self.object_ok(*o),
                Err(e) => self.object(raw) == Err::<Object, BridgeError>(e),
            },
    {
        match Handle::from_raw(raw) {
            Some(h) => self.table.resolve(h),
            None => Err(BridgeError::UseAfterFree),
        }
    }

    /// Puts `o` under a handle of its own.
    fn insert(&mut self, o: Object) -> (r: Result<i64, BridgeError>)
        requires
            old(self).wf(),
            old(self).object_ok(o),
        ensures
            final(self).wf(),
            match r {
                Ok(raw) => {
                    &&& !old(self).is_full()
                    &&& raw != 0
                    &&& final(self).added(old(self), raw)
                    &&& final(self).object(raw) == Ok::<Object, BridgeError>(o)
                },
                Err(e) => {
                    &&& old(self).is_full()
                    &&& e == BridgeError::NativeFault
                    &&& final(self).unchanged(old(self))
                },
            },
    {
        match self.table.create(o) {
            Ok(h) => {
                proof {
                    lemma_decoded(h, h.raw());
                    old(self).table.lemma_live_issued(h);
                    self.lemma_wf_step(old(self));
                }
                Ok(h.to_raw())
            },
            Err(e) => {
                proof {
                    self.lemma_wf_step(old(self));
                }
                Err(e)
            },
        }
    }

    /// Drops the object under the raw handle `raw`, which names a live
    /// object.
    fn discard(&mut self, raw: i64)
        requires
            old(self).wf(),
            old(self).object(raw) is Ok,
        ensures
            final(self).wf(),
            final(self).removed(old(self), raw),
    {
        match Handle::from_raw(raw) {
            Some(h) => {
                let _ = self.table.destroy(h);
                proof {
                    self.lemma_wf_step(old(self));
                }
            },
            None => {},
        }
    }

    /// Makes an empty database and gives out its handle. The call fails
    /// with [`BridgeError::NativeFault`] exactly when the bridge is full.
    pub fn create_database(&mut self) -> (r: Result<i64, BridgeError>)
        requires
            old(self).wf(),
        ensures
            final(self).wf(),
            final(self).database_made(old(self), r),
    {
        self.insert(Object::Database(Database::new()))
    }

    /// Frees the object of the given kind under `raw`. Whatever was made
    /// from it stays: a view outlives its database; an index whose view was
    /// freed, and an iterator whose index was freed, report
    /// [`BridgeError::UseAfterFree`] when they are next used. A second call
    /// with the same handle fails with [`BridgeError::UseAfterFree`].
    pub fn destroy(&mut self, raw: i64, kind: Kind) -> (r: Result<(), BridgeError>)
        requires
            old(self).wf(),
        ensures
            final(self).wf(),
            final(self).freed(old(self), raw, kind, r),
    {
        let found = match self.lookup(raw) {
            Ok(o) => match (o, kind) {
                (Object::Database(_), Kind::Database) => true,
                (Object::View(_), Kind::View) => true,
                (Object::Index(_), Kind::Index) => true,
                (Object::Iter(it), Kind::Iter(k)) => it.kind == k,
                _ => false,
            },
            Err(e) => {
                return Err(e);
            },
        };
        if !found {
            return Err(BridgeError::TypeConfusion);
        }
        self.discard(raw);
        Ok(())
    }

    /// Takes a view of the database under `db`, a fork if `writable` and a
    /// snapshot if not, and gives out the view's handle.
    fn take_view(&mut self, db: i64, writable: bool) -> (r: Result<i64, BridgeError>)
        requires
            old(self).wf(),
        ensures
            final(self).wf(),
            final(self).viewed(old(self), db, writable, r),
    {
        let view = match self.lookup(db) {
            Ok(Object::Database(d)) => if writable {
                crate::db::View::Fork(d.fork())
            } else {
                crate::db::View::Snapshot(d.snapshot())
            },
            Ok(_) => {
                return Err(BridgeError::TypeConfusion);
            },
            Err(e) => {
                return Err(e);
            },
        };
        self.insert(Object::View(view))
    }

    /// Takes a snapshot of the database under `db` and gives out its
    /// handle. The snapshot shows what the database holds at the time of
    /// the call.
    pub fn snapshot(&mut self, db: i64) -> (r: Result<i64, BridgeError>)
        requires
            old(self).wf(),
        ensures
            final(self).wf(),
            final(self).viewed(old(self), db, false, r),
    {
        self.take_view(db, false)
    }

    /// Takes a fork of the database under `db` and gives out its handle.
    /// The fork starts from what the database holds at the time of the
    /// call.
    pub fn fork(&mut self, db: i64) -> (r: Result<i64, BridgeError>)
        requires
            old(self).wf(),
        ensures
            final(self).wf(),
            final(self).viewed(old(self), db, true, r),
    {
        self.take_view(db, true)
    }

    /// Puts an index at `namespace` on the view under `view`.
    fn open_index(&mut self, namespace: Namespace, view: i64) -> (r: Result<i64, BridgeError>)
        requires
            old(self).wf(),
        ensures
            final(self).wf(),
            final(self).indexed(old(self), namespace@, view, r),
    {
        let writable = match self.lookup(view) {
            Ok(Object::View(v)) => v.can_write(),
            Ok(_) => {
                return Err(BridgeError::TypeConfusion);
            },
            Err(e) => {
                return Err(e);
            },
        };
        match Handle::from_raw(view) {
            Some(h) => {
                proof {
                    self.table.lemma_live_issued(h);
                }
                let r = self.insert(Object::Index(IndexType::new(h, writable, namespace)));
                proof {
                    if r is Ok {
                        assert(self.objects().contains_key(h));
                    }
                }
                r
            },
            None => Err(BridgeError::UseAfterFree),
        }
    }

    /// Makes an index on the table called `name` of the view under `view`
    /// and gives out its handle.
    pub fn index_new(&mut self, name: String, view: i64) -> (r: Result<i64, BridgeError>)
        requires
            old(self).wf(),
        ensures
            final(self).wf(),
            final(self).indexed(
                old(self),
                NamespaceView { name: name@, family: None },
                view,
                r,
            ),
    {
        self.open_index(Namespace::new(name), view)
    }

    /// Makes an index on the table of the member `id` of the family called
    /// `group`, in the view under `view`, and gives out its handle. Members
    /// with different identifiers have tables of their own.
    pub fn index_new_in_family(&mut self, group: String, id: Vec<u8>, view: i64) -> (r: Result<
        i64,
        BridgeError,
    >)
        requires
            old(self).wf(),
        ensures
            final(self).wf(),
            final(self).indexed(
                old(self),
                NamespaceView { name: group@, family: Some(id@) },
                view,
                r,
            ),
    {
        self.open_index(Namespace::new_in_family(group, id), view)
    }

    /// The index under `map`, with the tables of the view behind it.
    fn read(&self, map: i64) -> (r: Result<(&Index, &crate::store::Store), BridgeError>)
        requires
            self.wf(),
        ensures
            match r {
                Ok((i, store)) => {
                    &&& self.index(map) is Ok
                    &&& *i == self.index(map)->Ok_0.parts()
                    &&& self.backing(self.index(map)->Ok_0) is Ok
                    &&& *store == self.backing(self.index(map)->Ok_0)->Ok_0.state()
                    &&& store.wf()
                    &&& self.shown(map) == Ok::<Seq<Pair>, BridgeError>(store.pairs(i.namespace@))
                },
                Err(e) => self.shown(map) == Err::<Seq<Pair>, BridgeError>(e),
            },
    {
        match self.lookup(map) {
            Ok(Object::Index(index)) => {
                let i = index.get_parts();
                match self.table.resolve(i.view) {
                    Ok(Object::View(v)) => Ok((i, v.reader())),
                    Ok(_) => Err(BridgeError::TypeConfusion),
                    Err(e) => Err(e),
                }
            },
            Ok(_) => Err(BridgeError::TypeConfusion),
            Err(e) => Err(e),
        }
    }

    /// A copy of the value that the index under `map` keeps under `key`, or
    /// `None` where it keeps none.
    pub fn get(&self, map: i64, key: &Vec<u8>) -> (r: Result<Option<Vec<u8>>, BridgeError>)
        requires
            self.wf(),
        ensures
            match self.get_result(map, key@) {
                Ok(v) => r is Ok && bytes_view(r->Ok_0) == v,
                Err(e) => r == Err::<Option<Vec<u8>>, BridgeError>(e),
            },
    {
        match self.read(map) {
            Ok((i, store)) => match store.get(&i.namespace, key) {
                Some(v) => Ok(Some(copy_bytes(v))),
                None => Ok(None),
            },
            Err(e) => Err(e),
        }
    }

    /// Whether the index under `map` keeps a value under `key`.
    pub fn contains(&self, map: i64, key: &Vec<u8>) -> (r: Result<bool, BridgeError>)
        requires
            self.wf(),
        ensures
            r == self.contains_result(map, key@),
    {
        match self.read(map) {
            Ok((i, store)) => Ok(store.contains(&i.namespace, key)),
            Err(e) => Err(e),
        }
    }

    /// The view and the table that a write through the index under `map`
    /// goes to.
    fn target(&self, map: i64) -> (r: Result<(Handle, Namespace), BridgeError>)
        requires
            self.wf(),
        ensures
            match r {
                Ok((view, namespace)) => {
                    &&& self.index(map) is Ok
                    &&& self.index(map)->Ok_0.is_fork()
                    &&& self.index(map)->Ok_0.parts().view == view
                    &&& self.index(map)->Ok_0.parts().namespace@ == namespace@
                    &&& self.issued(view)
                    &&& self.objects().contains_key(view) ==> is_view_of(
                        self.objects()[view],
                        true,
                    )
                },
                Err(e) => {
                    &&& self.write_allowed(map) == Err::<(), BridgeError>(e)
                    &&& self.writable(map) == Err::<Seq<Pair>, BridgeError>(e)
                },
            },
    {
        match self.lookup(map) {
            Ok(Object::Index(index)) => {
                if !index.can_write() {
                    return Err(BridgeError::IllegalMutation);
                }
                let i = index.get_parts();
                Ok((i.view, i.namespace.duplicate()))
            },
            Ok(_) => Err(BridgeError::TypeConfusion),
            Err(e) => Err(e),
        }
    }

    /// Whether the index under `map` takes writes. A caller that has more
    /// to do before a write asks this first, so that a write to a snapshot
    /// is refused before anything else is looked at.
    pub fn check_writable(&self, map: i64) -> (r: Result<(), BridgeError>)
        requires
            self.wf(),
        ensures
            r == self.write_allowed(map),
    {
        match self.target(map) {
            Ok(_) => Ok(()),
            Err(e) => Err(e),
        }
    }

    /// Carries out one write on the fork under `view`, in the table at
    /// `namespace`.
    fn write(&mut self, view: Handle, namespace: &Namespace, op: Pending) -> (r: Result<
        (),
        BridgeError,
    >)
        requires
            old(self).wf(),
            old(self).issued(view),
            old(self).objects().contains_key(view) ==> is_view_of(old(self).objects()[view], true),
        ensures
            final(self).wf(),
            match r {
                Ok(_) => {
                    &&& final(self).changed_at(old(self), view)
                    &&& match (final(self).objects()[view], old(self).objects()[view]) {
                        (Object::View(now), Object::View(then)) => {
                            &&& now.is_fork()
                            &&& then.is_fork()
                            &&& now.state().same_elsewhere(&then.state(), namespace@)
                            &&& now.state().contents(namespace@) == apply(
                                then.state().contents(namespace@),
                                op@,
                            )
                        },
                        _ => false,
                    }
                },
                Err(e) => {
                    &&& e == BridgeError::UseAfterFree
                    &&& !old(self).objects().contains_key(view)
                    &&& final(self).unchanged(old(self))
                },
            },
    {
        match self.table.resolve_mut(view) {
            Ok(object) => {
                match object {
                    Object::View(v) => match v.writer() {
                        Ok(store) => match op {
                            Pending::Put(key, value) => {
                                store.put(namespace, key, value);
                            },
                            Pending::Remove(key) => {
                                store.remove(namespace, &key);
                            },
                            Pending::Clear => {
                                store.clear(namespace);
                            },
                        },
                        Err(_) => {},
                    },
                    _ => {},
                }
                proof {
                    self.lemma_wf_step(old(self));
                }
                Ok(())
            },
            Err(e) => {
                proof {
                    self.lemma_wf_step(old(self));
                }
                Err(e)
            },
        }
    }

    /// Keeps `value` under `key` in the index under `map`, in place of any
    /// value kept there before.
    pub fn put(&mut self, map: i64, key: Vec<u8>, value: Vec<u8>) -> (r: Result<(), BridgeError>)
        requires
            old(self).wf(),
        ensures
            final(self).wf(),
            final(self).written(old(self), map, Write::Put(key@, value@), r),
    {
        match self.target(map) {
            Ok((view, namespace)) => self.write(view, &namespace, Pending::Put(key, value)),
            Err(e) => Err(e),
        }
    }

    /// Drops `key` and its value from the index under `map`. Where the
    /// index keeps nothing under `key`, the call succeeds all the same and
    /// the index shows what it showed.
    pub fn remove(&mut self, map: i64, key: Vec<u8>) -> (r: Result<(), BridgeError>)
        requires
            old(self).wf(),
        ensures
            final(self).wf(),
            final(self).written(old(self), map, Write::Remove(key@), r),
    {
        match self.target(map) {
            Ok((view, namespace)) => self.write(view, &namespace, Pending::Remove(key)),
            Err(e) => Err(e),
        }
    }

    /// Drops every entry of the index under `map`.
    pub fn clear(&mut self, map: i64) -> (r: Result<(), BridgeError>)
        requires
            old(self).wf(),
        ensures
            final(self).wf(),
            final(self).written(old(self), map, Write::Clear, r),
    {
        match self.target(map) {
            Ok((view, namespace)) => self.write(view, &namespace, Pending::Clear),
            Err(e) => Err(e),
        }
    }

    /// Makes an iterator of the given kind over the index under `map`.
    fn open_iter(&mut self, map: i64, kind: IterKind, cursor: Cursor) -> (r: Result<
        i64,
        BridgeError,
    >)
        requires
            old(self).wf(),
        ensures
            final(self).wf(),
            final(self).opened(old(self), map, kind, cursor@, r),
    {
        match self.read(map) {
            Ok(_) => {},
            Err(e) => {
                return Err(e);
            },
        }
        match Handle::from_raw(map) {
            Some(index) => {
                proof {
                    self.table.lemma_live_issued(index);
                }
                let r = self.insert(Object::Iter(Iter { kind, index, cursor }));
                proof {
                    if r is Ok {
                        let h = Handle::decoded(r->Ok_0 as int)->Some_0;
                        assert(self.objects().contains_key(index));
                        let i = old(self).index(map)->Ok_0;
                        let v = i.parts().view;
                        assert(self.objects().contains_key(v));
                    }
                }
                r
            },
            None => Err(BridgeError::UseAfterFree),
        }
    }

    /// Makes an iterator over the pairs of the index under `map`, from its
    /// first key on, and gives out its handle.
    pub fn iter(&mut self, map: i64) -> (r: Result<i64, BridgeError>)
        requires
            old(self).wf(),
        ensures
            final(self).wf(),
            final(self).opened(old(self), map, IterKind::Entries, CursorView::Start, r),
    {
        self.open_iter(map, IterKind::Entries, Cursor::Start)
    }

    /// Makes an iterator over the pairs of the index under `map`, from the
    /// first key that is not below `from` on, and gives out its handle.
    pub fn iter_from(&mut self, map: i64, from: Vec<u8>) -> (r: Result<i64, BridgeError>)
        requires
            old(self).wf(),
        ensures
            final(self).wf(),
            final(self).opened(old(self), map, IterKind::Entries, CursorView::From(from@), r),
    {
        self.open_iter(map, IterKind::Entries, Cursor::From(from))
    }

    /// Makes an iterator over the keys of the index under `map`, from its
    /// first key on, and gives out its handle.
    pub fn keys(&mut self, map: i64) -> (r: Result<i64, BridgeError>)
        requires
            old(self).wf(),
        ensures
            final(self).wf(),
            final(self).opened(old(self), map, IterKind::Keys, CursorView::Start, r),
    {
        self.open_iter(map, IterKind::Keys, Cursor::Start)
    }

    /// Makes an iterator over the keys of the index under `map`, from the
    /// first key that is not below `from` on, and gives out its handle.
    pub fn keys_from(&mut self, map: i64, from: Vec<u8>) -> (r: Result<i64, BridgeError>)
        requires
            old(self).wf(),
        ensures
            final(self).wf(),
            final(self).opened(old(self), map, IterKind::Keys, CursorView::From(from@), r),
    {
        self.open_iter(map, IterKind::Keys, Cursor::From(from))
    }

    /// Makes an iterator over the values of the index under `map`, in the
    /// order of their keys from the first key on, and gives out its handle.
    pub fn values(&mut self, map: i64) -> (r: Result<i64, BridgeError>)
        requires
            old(self).wf(),
        ensures
            final(self).wf(),
            final(self).opened(old(self), map, IterKind::Values, CursorView::Start, r),
    {
        self.open_iter(map, IterKind::Values, Cursor::Start)
    }

    /// Makes an iterator over the values of the index under `map`, in the
    /// order of their keys from the first key that is not below `from` on,
    /// and gives out its handle.
    pub fn values_from(&mut self, map: i64, from: Vec<u8>) -> (r: Result<i64, BridgeError>)
        requires
            old(self).wf(),
        ensures
            final(self).wf(),
            final(self).opened(old(self), map, IterKind::Values, CursorView::From(from@), r),
    {
        self.open_iter(map, IterKind::Values, Cursor::From(from))
    }

    /// A copy of the pair that comes first for the iterator of the given
    /// kind under `iter`, if any is to come.
    fn peek(&self, iter: i64, kind: IterKind) -> (r: Result<Option<Entry>, BridgeError>)
        requires
            self.wf(),
        ensures
            match self.upcoming(iter, kind) {
                Ok(s) => {
                    &&& Handle::decoded(iter as int) is Some
                    &&& self.objects().contains_key(Handle::decoded(iter as int)->Some_0)
                    &&& if s.len() == 0 {
                        r == Ok::<Option<Entry>, BridgeError>(None)
                    } else {
                        &&& step_view(r) == Ok::<Option<Pair>, BridgeError>(Some(s[0]))
                        &&& remaining(
                            self.backing(
                                self.walked(self.iterator(iter, kind)->Ok_0)->Ok_0,
                            )->Ok_0.state().pairs(
                                self.walked(
                                    self.iterator(iter, kind)->Ok_0,
                                )->Ok_0.parts().namespace@,
                            ),
                            CursorView::After(s[0].0),
                        ) == s.drop_first()
                    }
                },
                Err(e) => r == Err::<Option<Entry>, BridgeError>(e),
            },
    {
        let it = match self.lookup(iter) {
            Ok(Object::Iter(it)) => it,
            Ok(_) => {
                return Err(BridgeError::TypeConfusion);
            },
            Err(e) => {
                return Err(e);
            },
        };
        if it.kind != kind {
            return Err(BridgeError::TypeConfusion);
        }
        let i = match self.table.resolve(it.index) {
            Ok(Object::Index(index)) => index.get_parts(),
            Ok(_) => {
                return Err(BridgeError::TypeConfusion);
            },
            Err(e) => {
                return Err(e);
            },
        };
        let store = match self.table.resolve(i.view) {
            Ok(Object::View(v)) => v.reader(),
            Ok(_) => {
                return Err(BridgeError::TypeConfusion);
            },
            Err(e) => {
                return Err(e);
            },
        };
        match store.first(&i.namespace, &it.cursor) {
            Some(e) => Ok(Some(e.duplicate())),
            None => Ok(None),
        }
    }

    /// Moves the iterator of the given kind under `iter` one pair on and
    /// hands that pair out.
    fn advance(&mut self, iter: i64, kind: IterKind) -> (r: Result<Option<Entry>, BridgeError>)
        requires
            old(self).wf(),
        ensures
            final(self).wf(),
            final(self).stepped(old(self), iter, kind),
            step_view(r) == old(self).yielded(iter, kind),
    {
        let next = match self.peek(iter, kind) {
            Ok(next) => next,
            Err(e) => {
                return Err(e);
            },
        };
        let cursor = match &next {
            Some(e) => Cursor::After(copy_bytes(&e.key)),
            None => Cursor::End,
        };
        match Handle::from_raw(iter) {
            Some(h) => {
                match self.table.resolve_mut(h) {
                    Ok(object) => {
                        match object {
                            Object::Iter(it) => {
                                it.cursor = cursor;
                            },
                            _ => {},
                        }
                    },
                    Err(_) => {},
                }
                proof {
                    let it = old(self).iterator(iter, kind)->Ok_0;
                    let i = old(self).walked(it)->Ok_0;
                    let v = i.parts().view;
                    assert(self.objects().contains_key(it.index));
                    assert(self.objects().contains_key(v));
                    self.lemma_wf_step(old(self));
                    if next is None {
                        let s = old(self).backing(i)->Ok_0.state().pairs(i.parts().namespace@);
                        lemma_remaining_none(s, CursorView::End);
                    }
                }
            },
            None => {},
        }
        Ok(next)
    }

    /// The next pair of the entries iterator under `iter`, or `None` once
    /// the iterator is through; from then on every call gives `None`.
    pub fn entries_next(&mut self, iter: i64) -> (r: Result<Option<Entry>, BridgeError>)
        requires
            old(self).wf(),
        ensures
            final(self).wf(),
            final(self).stepped(old(self), iter, IterKind::Entries),
            step_view(r) == old(self).yielded(iter, IterKind::Entries),
    {
        self.advance(iter, IterKind::Entries)
    }

    /// The next key of the keys iterator under `iter`, or `None` once the
    /// iterator is through; from then on every call gives `None`.
    pub fn keys_next(&mut self, iter: i64) -> (r: Result<Option<Vec<u8>>, BridgeError>)
        requires
            old(self).wf(),
        ensures
            final(self).wf(),
            final(self).stepped(old(self), iter, IterKind::Keys),
            match old(self).yielded(iter, IterKind::Keys) {
                Ok(Some(p)) => r is Ok && bytes_view(r->Ok_0) == Some(p.0),
                Ok(None) => r == Ok::<Option<Vec<u8>>, BridgeError>(None),
                Err(e) => r == Err::<Option<Vec<u8>>, BridgeError>(e),
            },
    {
        let r = self.advance(iter, IterKind::Keys);
        match r {
            Ok(Some(e)) => Ok(Some(e.key)),
            Ok(None) => Ok(None),
            Err(e) => Err(e),
        }
    }

    /// The next value of the values iterator under `iter`, or `None` once
    /// the iterator is through; from then on every call gives `None`.
    pub fn values_next(&mut self, iter: i64) -> (r: Result<Option<Vec<u8>>, BridgeError>)
        requires
            old(self).wf(),
        ensures
            final(self).wf(),
            final(self).stepped(old(self), iter, IterKind::Values),
            match old(self).yielded(iter, IterKind::Values) {
                Ok(Some(p)) => r is Ok && bytes_view(r->Ok_0) == Some(p.1),
                Ok(None) => r == Ok::<Option<Vec<u8>>, BridgeError>(None),
                Err(e) => r == Err::<Option<Vec<u8>>, BridgeError>(e),
            },
    {
        let r = self.advance(iter, IterKind::Values);
        match r {
            Ok(Some(e)) => Ok(Some(e.value)),
            Ok(None) => Ok(None),
            Err(e) => Err(e),
        }
    }
}

} // verus!
