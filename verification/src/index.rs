//! The objects that the bridge keeps for a map index and for its iterators.
//!
//! Neither holds a reference into its parent. An index holds the handle of
//! the view behind it, an iterator the handle of its index, and each call
//! resolves that handle anew: a parent that was freed is found out then.

use vstd::prelude::*;
use crate::handle::Handle;
use crate::store::Namespace;
use crate::table::Cursor;

verus! {

/// What an index is made of: the view behind it, and its table's address.
#[derive(Debug)]
pub struct Index {
    /// The handle of the view behind the index.
    pub view: Handle,
    /// The address of the index's table within the view.
    pub namespace: Namespace,
}

/// A map index, tagged as the view behind it: read-only on a snapshot,
/// writable on a fork.
#[derive(Debug)]
pub enum IndexType {
    SnapshotIndex(Index),
    ForkIndex(Index),
}

impl IndexType {
    /// What the index is made of.
    pub open spec fn parts(&self) -> Index {
        match self {
            IndexType::SnapshotIndex(i) => *i,
            IndexType::ForkIndex(i) => *i,
        }
    }

    /// Whether the index takes writes.
    pub open spec fn is_fork(&self) -> bool {
        self is ForkIndex
    }

    /// An index on the view that `view` names, tagged as writable or not.
    pub fn new(view: Handle, writable: bool, namespace: Namespace) -> (r: IndexType)
        ensures
            r.is_fork() == writable,
            r.parts() == (Index { view, namespace }),
    {
        if writable {
            IndexType::ForkIndex(Index { view, namespace })
        } else {
            IndexType::SnapshotIndex(Index { view, namespace })
        }
    }

    /// What the index is made of.
    pub fn get_parts(&self) -> (r: &Index)
        ensures
            *r == self.parts(),
    {
        match self {
            IndexType::SnapshotIndex(i) => i,
            IndexType::ForkIndex(i) => i,
        }
    }

    /// Whether the index takes writes.
    pub fn can_write(&self) -> (r: bool)
        ensures
            r == self.is_fork(),
    {
        match self {
            IndexType::SnapshotIndex(_) => false,
            IndexType::ForkIndex(_) => true,
        }
    }
}

/// What an iterator yields.
#[derive(Clone, Copy, Debug, PartialEq, Eq, Structural)]
pub enum IterKind {
    /// Pairs of key and value.
    Entries,
    /// Keys only.
    Keys,
    /// Values only.
    Values,
}

/// An iterator over a map index.
#[derive(Debug)]
pub struct Iter {
    /// What the iterator yields.
    pub kind: IterKind,
    /// The handle of the index that the iterator walks.
    pub index: Handle,
    /// Where the iterator stands.
    pub cursor: Cursor,
}

} // verus!
