//! The state that a view of the database sees: one ordered table for each
//! namespace.
//!
//! A namespace is either a name of its own, or a group name together with the
//! identifier of one member of that group's family. Two namespaces that differ
//! in any of these address different tables: tables never share keys.

use vstd::prelude::*;
use crate::lex::{copy_bytes, same_bytes};
use crate::table::{
    lemma_remaining_none, pairs_of, remaining, sorted, to_map, Cursor, CursorView, Entry, Pair, Table,
};

verus! {

/// The address of one table.
#[derive(Debug)]
pub struct Namespace {
    name: String,
    family: Option<Vec<u8>>,
}

/// A namespace as contracts see it.
pub struct NamespaceView {
    /// The table's name, or the name of its group.
    pub name: Seq<char>,
    /// The identifier within the group, for a member of a family.
    pub family: Option<Seq<u8>>,
}

impl View for Namespace {
    type V = NamespaceView;

    closed spec fn view(&self) -> NamespaceView {
        NamespaceView {
            name: self.name@,
            family: match self.family {
                Some(id) => Some(id@),
                None => None,
            },
        }
    }
}

impl Namespace {
    /// The namespace of the table called `name`.
    pub fn new(name: String) -> (r: Namespace)
        ensures
            r@ == (NamespaceView { name: name@, family: None }),
    {
        Namespace { name, family: None }
    }

    /// The namespace of the member `id` of the family called `group`.
    pub fn new_in_family(group: String, id: Vec<u8>) -> (r: Namespace)
        ensures
            r@ == (NamespaceView { name: group@, family: Some(id@) }),
    {
        Namespace { name: group, family: Some(id) }
    }

    /// Whether two namespaces address the same table.
    pub fn same(&self, other: &Namespace) -> (r: bool)
        ensures
            r == (self@ == other@),
    {
        if self.name != other.name {
            return false;
        }
        match (&self.family, &other.family) {
            (Some(a), Some(b)) => same_bytes(a, b),
            (None, None) => true,
            _ => false,
        }
    }

    /// A fresh namespace with the same address.
    pub fn duplicate(&self) -> (r: Namespace)
        ensures
            r@ == self@,
    {
        Namespace {
            name: self.name.clone(),
            family: match &self.family {
                Some(id) => Some(copy_bytes(id)),
                None => None,
            },
        }
    }
}

/// One table with its address.
#[derive(Debug)]
struct Space {
    namespace: Namespace,
    table: Table,
}

/// All tables of one view.
#[derive(Debug)]
pub struct Store {
    spaces: Vec<Space>,
}

impl Store {
    /// Some table is kept for `ns`.
    closed spec fn holds(&self, ns: NamespaceView) -> bool {
        exists|i: int| 0 <= i < self.spaces@.len() && (#[trigger] self.spaces@[i]).namespace@ == ns
    }

    /// The place of the table kept for `ns`.
    closed spec fn place(&self, ns: NamespaceView) -> int {
        choose|i: int| 0 <= i < self.spaces@.len() && (#[trigger] self.spaces@[i]).namespace@ == ns
    }

    /// The pairs of the table at `ns`, in key order; empty where the store
    /// keeps no table for `ns`.
    pub closed spec fn pairs(&self, ns: NamespaceView) -> Seq<Pair> {
        if self.holds(ns) {
            self.spaces@[self.place(ns)].table.pairs()
        } else {
            Seq::<Pair>::empty()
        }
    }

    /// The mapping from key to value of the table at `ns`.
    pub open spec fn contents(&self, ns: NamespaceView) -> Map<Seq<u8>, Seq<u8>> {
        to_map(self.pairs(ns))
    }

    /// The invariant: every table is sorted, and no namespace has two tables.
    pub closed spec fn wf(&self) -> bool {
        &&& forall|i: int| 0 <= i < self.spaces@.len() ==> (#[trigger] self.spaces@[i]).table.wf()
        &&& forall|i: int, j: int|
            0 <= i < j < self.spaces@.len() ==> (#[trigger] self.spaces@[i]).namespace@ != (
            #[trigger] self.spaces@[j]).namespace@
    }

    /// Every table but the one at `ns` is the same in `self` and in `other`.
    pub open spec fn same_elsewhere(&self, other: &Store, ns: NamespaceView) -> bool {
        forall|o: NamespaceView| o != ns ==> self.pairs(o) == other.pairs(o)
    }

    /// Every table is the same in `self` and in `other`.
    pub open spec fn same_everywhere(&self, other: &Store) -> bool {
        forall|o: NamespaceView| self.pairs(o) == other.pairs(o)
    }

    /// In a well-formed store the pairs of every table are strictly sorted by
    /// key.
    pub proof fn lemma_pairs_sorted(&self, ns: NamespaceView)
        requires
            self.wf(),
        ensures
            sorted(self.pairs(ns)),
    {
    }

    /// The table at place `i` is the one that the store keeps for its
    /// namespace.
    proof fn lemma_place(&self, i: int)
        requires
            self.wf(),
            0 <= i < self.spaces@.len(),
        ensures
            self.holds(self.spaces@[i].namespace@),
            self.place(self.spaces@[i].namespace@) == i,
            self.pairs(self.spaces@[i].namespace@) == self.spaces@[i].table.pairs(),
    {
    }

    /// A store without tables.
    pub fn new() -> (r: Store)
        ensures
            r.wf(),
            forall|ns: NamespaceView| r.pairs(ns) == Seq::<Pair>::empty(),
    {
        Store { spaces: Vec::new() }
    }

    /// The place of the table for `ns`, where the store keeps one.
    fn locate(&self, ns: &Namespace) -> (r: Option<usize>)
        requires
            self.wf(),
        ensures
            match r {
                Some(i) => {
                    &&& i < self.spaces@.len()
                    &&& self.spaces@[i as int].namespace@ == ns@
                    &&& self.pairs(ns@) == self.spaces@[i as int].table.pairs()
                },
                None => !self.holds(ns@) && self.pairs(ns@) == Seq::<Pair>::empty(),
            },
    {
        let mut i: usize = 0;
        while i < self.spaces.len()
            invariant
                self.wf(),
                i <= self.spaces@.len(),
                forall|j: int| 0 <= j < i ==> (#[trigger] self.spaces@[j]).namespace@ != ns@,
            decreases self.spaces@.len() - i,
        {
            if self.spaces[i].namespace.same(ns) {
                proof {
                    self.lemma_place(i as int);
                }
                return Some(i);
            }
            i = i + 1;
        }
        None
    }

    /// The value kept under `key` in the table at `ns`, if any.
    pub fn get(&self, ns: &Namespace, key: &Vec<u8>) -> (r: Option<&Vec<u8>>)
        requires
            self.wf(),
        ensures
            match r {
                Some(v) => self.contents(ns@).contains_key(key@) && self.contents(ns@)[key@] == v@,
                None => !self.contents(ns@).contains_key(key@),
            },
    {
        match self.locate(ns) {
            Some(i) => self.spaces[i].table.get(key),
            None => None,
        }
    }

    /// Whether the table at `ns` holds `key`.
    pub fn contains(&self, ns: &Namespace, key: &Vec<u8>) -> (r: bool)
        requires
            self.wf(),
        ensures
            r == self.contents(ns@).contains_key(key@),
    {
        match self.locate(ns) {
            Some(i) => self.spaces[i].table.contains(key),
            None => false,
        }
    }

    /// The pair of the table at `ns` that comes first for `cursor`, if any is
    /// to come.
    pub fn first(&self, ns: &Namespace, cursor: &Cursor) -> (r: Option<&Entry>)
        requires
            self.wf(),
        ensures
            match r {
                Some(e) => {
                    &&& remaining(self.pairs(ns@), cursor@).len() > 0
                    &&& e@ == remaining(self.pairs(ns@), cursor@)[0]
                    &&& remaining(self.pairs(ns@), CursorView::After(e.key@)) == remaining(
                        self.pairs(ns@),
                        cursor@,
                    ).drop_first()
                },
                None => remaining(self.pairs(ns@), cursor@) == Seq::<Pair>::empty(),
            },
    {
        match self.locate(ns) {
            Some(i) => self.spaces[i].table.first(cursor),
            None => {
                proof {
                    lemma_remaining_none(self.pairs(ns@), cursor@);
                }
                None
            },
        }
    }

    /// Copies of all pairs of the table at `ns` that are to come for
    /// `cursor`, in key order.
    pub fn scan(&self, ns: &Namespace, cursor: &Cursor) -> (r: Vec<Entry>)
        requires
            self.wf(),
        ensures
            pairs_of(r@) == remaining(self.pairs(ns@), cursor@),
    {
        match self.locate(ns) {
            Some(i) => self.spaces[i].table.scan(cursor),
            None => {
                let r: Vec<Entry> = Vec::new();
                proof {
                    lemma_remaining_none(self.pairs(ns@), cursor@);
                }
                assert(pairs_of(r@) =~= Seq::<Pair>::empty());
                r
            },
        }
    }
    /// What holds after the table at place `i` was changed and nothing else.
    proof fn lemma_changed_at(&self, before: &Store, i: int)
        requires
            before.wf(),
            0 <= i < before.spaces@.len(),
            self.spaces@.len() == before.spaces@.len(),
            forall|j: int|
                0 <= j < before.spaces@.len() && j != i ==> #[trigger] self.spaces@[j]
                    == before.spaces@[j],
            self.spaces@[i].namespace@ == before.spaces@[i].namespace@,
            self.spaces@[i].table.wf(),
        ensures
            self.wf(),
            self.pairs(before.spaces@[i].namespace@) == self.spaces@[i].table.pairs(),
            self.same_elsewhere(before, before.spaces@[i].namespace@),
    {
        assert forall|j: int| 0 <= j < self.spaces@.len() implies (#[trigger] self.spaces@[j]).namespace@
            == before.spaces@[j].namespace@ by {}
        self.lemma_place(i);
        assert forall|o: NamespaceView| o != before.spaces@[i].namespace@ implies self.pairs(o)
            == before.pairs(o) by {
            if self.holds(o) {
                let j = self.place(o);
                assert(before.spaces@[j].namespace@ == o);
                before.lemma_place(j);
                self.lemma_place(j);
            } else if before.holds(o) {
                let j = before.place(o);
                assert(self.spaces@[j].namespace@ == o);
            }
        }
    }

    /// What holds after a table for a namespace that had none was added.
    proof fn lemma_added(&self, before: &Store, ns: NamespaceView)
        requires
            before.wf(),
            !before.holds(ns),
            self.spaces@.len() == before.spaces@.len() + 1,
            forall|j: int|
                0 <= j < before.spaces@.len() ==> #[trigger] self.spaces@[j] == before.spaces@[j],
            self.spaces@[before.spaces@.len() as int].namespace@ == ns,
            self.spaces@[before.spaces@.len() as int].table.wf(),
        ensures
            self.wf(),
            self.pairs(ns) == self.spaces@[before.spaces@.len() as int].table.pairs(),
            self.same_elsewhere(before, ns),
    {
        let n = before.spaces@.len() as int;
        assert forall|i: int, j: int| 0 <= i < j < self.spaces@.len() implies (
        #[trigger] self.spaces@[i]).namespace@ != (#[trigger] self.spaces@[j]).namespace@ by {
            assert(self.spaces@[i] == before.spaces@[i]);
            if j < n {
                assert(self.spaces@[j] == before.spaces@[j]);
            }
        }
        assert forall|j: int| 0 <= j < self.spaces@.len() implies (#[trigger] self.spaces@[j]).table.wf() by {
            if j < n {
                assert(self.spaces@[j] == before.spaces@[j]);
            }
        }
        self.lemma_place(n);
        assert forall|o: NamespaceView| o != ns implies self.pairs(o) == before.pairs(o) by {
            if self.holds(o) {
                let j = self.place(o);
                assert(self.spaces@[j] == before.spaces@[j]);
                before.lemma_place(j);
                self.lemma_place(j);
            } else if before.holds(o) {
                let j = before.place(o);
                assert(self.spaces@[j] == before.spaces@[j]);
            }
        }
    }

    /// Keeps `value` under `key` in the table at `ns`, in place of any value
    /// kept there before. No other table changes.
    pub fn put(&mut self, ns: &Namespace, key: Vec<u8>, value: Vec<u8>)
        requires
            old(self).wf(),
        ensures
            final(self).wf(),
            final(self).contents(ns@) == old(self).contents(ns@).insert(key@, value@),
            final(self).same_elsewhere(old(self), ns@),
    {
        match self.locate(ns) {
            Some(i) => {
                self.spaces[i].table.put(key, value);
                proof {
                    self.lemma_changed_at(old(self), i as int);
                }
            },
            None => {
                let mut table = Table::new();
                table.put(key, value);
                self.spaces.push(Space { namespace: ns.duplicate(), table });
                proof {
                    self.lemma_added(old(self), ns@);
                }
            },
        }
    }

    /// Drops `key` and its value from the table at `ns`; where the table does
    /// not hold `key`, nothing changes. No other table changes.
    pub fn remove(&mut self, ns: &Namespace, key: &Vec<u8>)
        requires
            old(self).wf(),
        ensures
            final(self).wf(),
            final(self).contents(ns@) == old(self).contents(ns@).remove(key@),
            final(self).same_elsewhere(old(self), ns@),
    {
        match self.locate(ns) {
            Some(i) => {
                self.spaces[i].table.remove(key);
                proof {
                    self.lemma_changed_at(old(self), i as int);
                }
            },
            None => {
                assert(self.contents(ns@) =~= old(self).contents(ns@).remove(key@));
            },
        }
    }

    /// Drops every entry of the table at `ns`. No other table changes.
    pub fn clear(&mut self, ns: &Namespace)
        requires
            old(self).wf(),
        ensures
            final(self).wf(),
            final(self).pairs(ns@) == Seq::<Pair>::empty(),
            final(self).contents(ns@) == Map::<Seq<u8>, Seq<u8>>::empty(),
            final(self).same_elsewhere(old(self), ns@),
    {
        match self.locate(ns) {
            Some(i) => {
                self.spaces[i].table.clear();
                proof {
                    self.lemma_changed_at(old(self), i as int);
                }
            },
            None => {
                assert(self.contents(ns@) =~= Map::<Seq<u8>, Seq<u8>>::empty());
            },
        }
    }

    /// A fresh store holding the same tables.
    pub fn duplicate(&self) -> (r: Store)
        requires
            self.wf(),
        ensures
            r.wf(),
            r.same_everywhere(self),
    {
        let mut out: Vec<Space> = Vec::new();
        let mut i: usize = 0;
        while i < self.spaces.len()
            invariant
                i <= self.spaces@.len(),
                out@.len() == i,
                forall|j: int|
                    0 <= j < i ==> (#[trigger] out@[j]).namespace@ == self.spaces@[j].namespace@
                        && out@[j].table.pairs() == self.spaces@[j].table.pairs(),
            decreases self.spaces@.len() - i,
        {
            let space = Space {
                namespace: self.spaces[i].namespace.duplicate(),
                table: self.spaces[i].table.duplicate(),
            };
            out.push(space);
            i = i + 1;
        }
        let r = Store { spaces: out };
        proof {
            assert(r.wf());
            assert forall|o: NamespaceView| r.pairs(o) == self.pairs(o) by {
                if r.holds(o) {
                    let j = r.place(o);
                    self.lemma_place(j);
                    r.lemma_place(j);
                } else if self.holds(o) {
                    let j = self.place(o);
                    assert(r.spaces@[j].namespace@ == o);
                }
            }
        }
        r
    }
}

} // verus!
