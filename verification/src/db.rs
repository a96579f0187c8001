//! The database root and the two kinds of view that it hands out.
//!
//! A snapshot is a read-only picture of the database at the time it was
//! taken. A fork starts as such a picture and takes writes; what is written
//! to it stays in the fork.

use vstd::prelude::*;
use crate::error::BridgeError;
use crate::store::{NamespaceView, Store};
use crate::table::Pair;

verus! {

/// The database root: an in-memory database.
#[derive(Debug)]
pub struct Database {
    store: Store,
}

/// A read-only view of the database.
#[derive(Debug)]
pub struct Snapshot {
    store: Store,
}

/// A writable view of the database.
#[derive(Debug)]
pub struct Fork {
    store: Store,
}

/// A view of the database: exactly one of the two kinds.
#[derive(Debug)]
pub enum View {
    Snapshot(Snapshot),
    Fork(Fork),
}

impl Database {
    /// The tables that the database holds.
    pub closed spec fn state(&self) -> Store {
        self.store
    }

    /// The invariant of the database.
    pub open spec fn wf(&self) -> bool {
        self.state().wf()
    }

    /// An empty database.
    pub fn new() -> (r: Database)
        ensures
            r.wf(),
            forall|ns: NamespaceView| r.state().pairs(ns) == Seq::<Pair>::empty(),
    {
        Database { store: Store::new() }
    }

    /// A read-only view of what the database holds now.
    pub fn snapshot(&self) -> (r: Snapshot)
        requires
            self.wf(),
        ensures
            r.wf(),
            r.state().same_everywhere(&self.state()),
    {
        Snapshot { store: self.store.duplicate() }
    }

    /// A writable view that starts from what the database holds now.
    pub fn fork(&self) -> (r: Fork)
        requires
            self.wf(),
        ensures
            r.wf(),
            r.state().same_everywhere(&self.state()),
    {
        Fork { store: self.store.duplicate() }
    }
}

impl Snapshot {
    /// The tables that the snapshot shows.
    pub closed spec fn state(&self) -> Store {
        self.store
    }

    /// The invariant of the snapshot.
    pub open spec fn wf(&self) -> bool {
        self.state().wf()
    }

    /// The tables, for reading.
    pub fn reader(&self) -> (r: &Store)
        ensures
            *r == self.state(),
    {
        &self.store
    }
}

impl Fork {
    /// The tables that the fork shows.
    pub closed spec fn state(&self) -> Store {
        self.store
    }

    /// The invariant of the fork.
    pub open spec fn wf(&self) -> bool {
        self.state().wf()
    }

    /// The tables, for reading.
    pub fn reader(&self) -> (r: &Store)
        ensures
            *r == self.state(),
    {
        &self.store
    }

    /// The tables, for writing.
    pub fn writer(&mut self) -> (r: &mut Store)
        ensures
            *r == old(self).state(),
            final(self).state() == *final(r),
    {
        &mut self.store
    }
}

impl View {
    /// Whether the view takes writes.
    pub open spec fn is_fork(&self) -> bool {
        self is Fork
    }

    /// The tables that the view shows.
    pub open spec fn state(&self) -> Store {
        match self {
            View::Snapshot(s) => s.state(),
            View::Fork(f) => f.state(),
        }
    }

    /// The invariant of the view.
    pub open spec fn wf(&self) -> bool {
        self.state().wf()
    }

    /// Whether the view takes writes.
    pub fn can_write(&self) -> (r: bool)
        ensures
            r == self.is_fork(),
    {
        match self {
            View::Snapshot(_) => false,
            View::Fork(_) => true,
        }
    }

    /// The tables, for reading. Every view gives them.
    pub fn reader(&self) -> (r: &Store)
        ensures
            *r == self.state(),
    {
        match self {
            View::Snapshot(s) => s.reader(),
            View::Fork(f) => f.reader(),
        }
    }

    /// The tables, for writing. Only a fork gives them: on a snapshot the
    /// call fails with [`BridgeError::IllegalMutation`], and the snapshot
    /// stays as it is.
    pub fn writer(&mut self) -> (r: Result<&mut Store, BridgeError>)
        ensures
            final(self).is_fork() == old(self).is_fork(),
            match r {
                Ok(s) => {
                    &&& old(self).is_fork()
                    &&& *s == old(self).state()
                    &&& final(self).state() == *final(s)
                },
                Err(e) => {
                    &&& !old(self).is_fork()
                    &&& e == BridgeError::IllegalMutation
                    &&& *final(self) == *old(self)
                },
            },
    {
        match self {
            View::Snapshot(_) => Err(BridgeError::IllegalMutation),
            View::Fork(f) => Ok(f.writer()),
        }
    }
}

} // verus!
