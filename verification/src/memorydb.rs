//! The calls by which the host makes and frees an in-memory database and
//! takes views of it.
//!
//! Each call takes the bridge and what the host handed over as plain
//! values, and gives back what the host is handed: a value, and the
//! condition raised on the host's error channel, if any. A call that raises
//! a condition returns [`NULL_HANDLE`] where it returns a handle.

use vstd::prelude::*;
use crate::bridge::{Bridge, Kind};
use crate::error::{unwrap_exc_or, Outcome};
use crate::handle::NULL_HANDLE;

verus! {

/// Makes an in-memory database and returns its handle.
#[allow(non_snake_case)]
pub fn Java_com_exonum_storage_DB_MemoryDB_nativeCreateMemoryDB(bridge: &mut Bridge) -> (r: Outcome<
    i64,
>)
    requires
        old(bridge).wf(),
    ensures
        final(bridge).wf(),
        final(bridge).database_made(old(bridge), r.result()),
        r.raised is Some ==> r.value == NULL_HANDLE,
{
    unwrap_exc_or(Ok(bridge.create_database()), NULL_HANDLE)
}

/// Frees the database under `db`.
#[allow(non_snake_case)]
pub fn Java_com_exonum_storage_DB_MemoryDB_nativeFreeMemoryDB(bridge: &mut Bridge, db: i64) -> (r:
    Outcome<()>)
    requires
        old(bridge).wf(),
    ensures
        final(bridge).wf(),
        final(bridge).freed(old(bridge), db, Kind::Database, r.result()),
{
    unwrap_exc_or(Ok(bridge.destroy(db, Kind::Database)), ())
}

/// Takes a snapshot of the database under `db` and returns its handle.
#[allow(non_snake_case)]
pub fn Java_com_exonum_storage_DB_MemoryDB_nativeLookupSnapshot(bridge: &mut Bridge, db: i64) -> (r:
    Outcome<i64>)
    requires
        old(bridge).wf(),
    ensures
        final(bridge).wf(),
        final(bridge).viewed(old(bridge), db, false, r.result()),
        r.raised is Some ==> r.value == NULL_HANDLE,
{
    unwrap_exc_or(Ok(bridge.snapshot(db)), NULL_HANDLE)
}

/// Takes a fork of the database under `db` and returns its handle.
#[allow(non_snake_case)]
pub fn Java_com_exonum_storage_DB_MemoryDB_nativeLookupFork(bridge: &mut Bridge, db: i64) -> (r:
    Outcome<i64>)
    requires
        old(bridge).wf(),
    ensures
        final(bridge).wf(),
        final(bridge).viewed(old(bridge), db, true, r.result()),
        r.raised is Some ==> r.value == NULL_HANDLE,
{
    unwrap_exc_or(Ok(bridge.fork(db)), NULL_HANDLE)
}

/// Frees the snapshot or fork under `db`.
#[allow(non_snake_case)]
pub fn Java_com_exonum_storage_DB_MemoryDB_nativeFreeView(bridge: &mut Bridge, db: i64) -> (r:
    Outcome<()>)
    requires
        old(bridge).wf(),
    ensures
        final(bridge).wf(),
        final(bridge).freed(old(bridge), db, Kind::View, r.result()),
{
    unwrap_exc_or(Ok(bridge.destroy(db, Kind::View)), ())
}

} // verus!
