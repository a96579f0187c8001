//! The calls by which the host makes, reads, writes, walks and frees a map
//! index.
//!
//! Each call takes the bridge and what the host handed over as plain
//! values, and gives back what the host is handed: a value, and the
//! condition raised on the host's error channel, if any. A name or a byte
//! string that the host's runtime could not decode arrives as `None` and
//! raises [`BridgeError::InvalidArgument`]. A call that raises a condition
//! returns its default: [`NULL_HANDLE`] for a handle, `None` for bytes or a
//! pair, `false` for a truth value.
//!
//! A call that fails changes nothing. A write checks first that the index
//! takes writes, then that its arguments were decoded, then that the fork
//! behind the index is still alive.

use vstd::prelude::*;
use crate::bridge::{step_view, Bridge, Kind};
use crate::error::{unwrap_exc_or, BridgeError, Outcome};
use crate::handle::NULL_HANDLE;
use crate::index::IterKind;
use crate::model::{bytes_view, Write};
use crate::store::NamespaceView;
use crate::table::{CursorView, Entry};

verus! {

/// The host's name for the record that holds one pair of an entries
/// iterator.
pub const JAVA_ENTRY_FQN: &'static str = "com/exonum/binding/storage/indices/MapEntryInternal";

/// The call was refused for an argument that could not be decoded, and
/// nothing has changed.
pub open spec fn refused<T>(after: &Bridge, before: &Bridge, r: Result<T, BridgeError>) -> bool {
    r == Err::<T, BridgeError>(BridgeError::InvalidArgument) && after.unchanged(before)
}

/// Makes an index on the table called `name` of the view under
/// `view_handle` and returns its handle.
#[allow(non_snake_case)]
pub fn Java_com_exonum_binding_storage_indices_MapIndexProxy_nativeCreate(
    bridge: &mut Bridge,
    name: Option<String>,
    view_handle: i64,
) -> (r: Outcome<i64>)
    requires
        old(bridge).wf(),
    ensures
        final(bridge).wf(),
        match name {
            Some(n) => final(bridge).indexed(
                old(bridge),
                NamespaceView { name: n@, family: None },
                view_handle,
                r.result(),
            ),
            None => refused(final(bridge), old(bridge), r.result()),
        },
        r.raised is Some ==> r.value == NULL_HANDLE,
{
    let res = match name {
        Some(n) => bridge.index_new(n, view_handle),
        None => Err(BridgeError::InvalidArgument),
    };
    unwrap_exc_or(Ok(res), NULL_HANDLE)
}

/// Makes an index on the table of the member `map_id` of the family called
/// `group_name`, in the view under `view_handle`, and returns its handle.
#[allow(non_snake_case)]
pub fn Java_com_exonum_binding_storage_indices_MapIndexProxy_nativeCreateInGroup(
    bridge: &mut Bridge,
    group_name: Option<String>,
    map_id: Option<Vec<u8>>,
    view_handle: i64,
) -> (r: Outcome<i64>)
    requires
        old(bridge).wf(),
    ensures
        final(bridge).wf(),
        match (group_name, map_id) {
            (Some(g), Some(id)) => final(bridge).indexed(
                old(bridge),
                NamespaceView { name: g@, family: Some(id@) },
                view_handle,
                r.result(),
            ),
            _ => refused(final(bridge), old(bridge), r.result()),
        },
        r.raised is Some ==> r.value == NULL_HANDLE,
{
    let res = match (group_name, map_id) {
        (Some(g), Some(id)) => bridge.index_new_in_family(g, id, view_handle),
        _ => Err(BridgeError::InvalidArgument),
    };
    unwrap_exc_or(Ok(res), NULL_HANDLE)
}

/// Frees the index under `map_handle`.
#[allow(non_snake_case)]
pub fn Java_com_exonum_binding_storage_indices_MapIndexProxy_nativeFree(
    bridge: &mut Bridge,
    map_handle: i64,
) -> (r: Outcome<()>)
    requires
        old(bridge).wf(),
    ensures
        final(bridge).wf(),
        final(bridge).freed(old(bridge), map_handle, Kind::Index, r.result()),
{
    unwrap_exc_or(Ok(bridge.destroy(map_handle, Kind::Index)), ())
}

/// Returns the value kept under `key`, or `None` where none is kept.
#[allow(non_snake_case)]
pub fn Java_com_exonum_binding_storage_indices_MapIndexProxy_nativeGet(
    bridge: &Bridge,
    map_handle: i64,
    key: Option<Vec<u8>>,
) -> (r: Outcome<Option<Vec<u8>>>)
    requires
        bridge.wf(),
    ensures
        match key {
            Some(k) => match bridge.get_result(map_handle, k@) {
                Ok(v) => r.raised is None && bytes_view(r.value) == v,
                Err(e) => r.raised == Some(e) && r.value is None,
            },
            None => r.raised == Some(BridgeError::InvalidArgument) && r.value is None,
        },
{
    let res = match key {
        Some(k) => bridge.get(map_handle, &k),
        None => Err(BridgeError::InvalidArgument),
    };
    unwrap_exc_or(Ok(res), None)
}

/// Returns whether the index keeps a value under `key`.
#[allow(non_snake_case)]
pub fn Java_com_exonum_binding_storage_indices_MapIndexProxy_nativeContainsKey(
    bridge: &Bridge,
    map_handle: i64,
    key: Option<Vec<u8>>,
) -> (r: Outcome<bool>)
    requires
        bridge.wf(),
    ensures
        match key {
            Some(k) => r.result() == bridge.contains_result(map_handle, k@),
            None => r.result() == Err::<bool, BridgeError>(BridgeError::InvalidArgument),
        },
        r.raised is Some ==> !r.value,
{
    let res = match key {
        Some(k) => bridge.contains(map_handle, &k),
        None => Err(BridgeError::InvalidArgument),
    };
    unwrap_exc_or(Ok(res), false)
}

/// Makes an iterator over the pairs of the index and returns its handle.
#[allow(non_snake_case)]
pub fn Java_com_exonum_binding_storage_indices_MapIndexProxy_nativeCreateEntriesIter(
    bridge: &mut Bridge,
    map_handle: i64,
) -> (r: Outcome<i64>)
    requires
        old(bridge).wf(),
    ensures
        final(bridge).wf(),
        final(bridge).opened(
            old(bridge),
            map_handle,
            IterKind::Entries,
            CursorView::Start,
            r.result(),
        ),
        r.raised is Some ==> r.value == NULL_HANDLE,
{
    unwrap_exc_or(Ok(bridge.iter(map_handle)), NULL_HANDLE)
}

/// Makes an iterator over the keys of the index and returns its handle.
#[allow(non_snake_case)]
pub fn Java_com_exonum_binding_storage_indices_MapIndexProxy_nativeCreateKeysIter(
    bridge: &mut Bridge,
    map_handle: i64,
) -> (r: Outcome<i64>)
    requires
        old(bridge).wf(),
    ensures
        final(bridge).wf(),
        final(bridge).opened(old(bridge), map_handle, IterKind::Keys, CursorView::Start, r.result()),
        r.raised is Some ==> r.value == NULL_HANDLE,
{
    unwrap_exc_or(Ok(bridge.keys(map_handle)), NULL_HANDLE)
}

/// Makes an iterator over the values of the index and returns its handle.
#[allow(non_snake_case)]
pub fn Java_com_exonum_binding_storage_indices_MapIndexProxy_nativeCreateValuesIter(
    bridge: &mut Bridge,
    map_handle: i64,
) -> (r: Outcome<i64>)
    requires
        old(bridge).wf(),
    ensures
        final(bridge).wf(),
        final(bridge).opened(
            old(bridge),
            map_handle,
            IterKind::Values,
            CursorView::Start,
            r.result(),
        ),
        r.raised is Some ==> r.value == NULL_HANDLE,
{
    unwrap_exc_or(Ok(bridge.values(map_handle)), NULL_HANDLE)
}

/// Makes an iterator over the pairs of the index, from the first key that
/// is not below `key` on, and returns its handle.
#[allow(non_snake_case)]
pub fn Java_com_exonum_binding_storage_indices_MapIndexProxy_nativeCreateIterFrom(
    bridge: &mut Bridge,
    map_handle: i64,
    key: Option<Vec<u8>>,
) -> (r: Outcome<i64>)
    requires
        old(bridge).wf(),
    ensures
        final(bridge).wf(),
        match key {
            Some(k) => final(bridge).opened(
                old(bridge),
                map_handle,
                IterKind::Entries,
                CursorView::From(k@),
                r.result(),
            ),
            None => refused(final(bridge), old(bridge), r.result()),
        },
        r.raised is Some ==> r.value == NULL_HANDLE,
{
    let res = match key {
        Some(k) => bridge.iter_from(map_handle, k),
        None => Err(BridgeError::InvalidArgument),
    };
    unwrap_exc_or(Ok(res), NULL_HANDLE)
}

/// Makes an iterator over the keys of the index, from the first key that is
/// not below `key` on, and returns its handle.
#[allow(non_snake_case)]
pub fn Java_com_exonum_binding_storage_indices_MapIndexProxy_nativeKeysFrom(
    bridge: &mut Bridge,
    map_handle: i64,
    key: Option<Vec<u8>>,
) -> (r: Outcome<i64>)
    requires
        old(bridge).wf(),
    ensures
        final(bridge).wf(),
        match key {
            Some(k) => final(bridge).opened(
                old(bridge),
                map_handle,
                IterKind::Keys,
                CursorView::From(k@),
                r.result(),
            ),
            None => refused(final(bridge), old(bridge), r.result()),
        },
        r.raised is Some ==> r.value == NULL_HANDLE,
{
    let res = match key {
        Some(k) => bridge.keys_from(map_handle, k),
        None => Err(BridgeError::InvalidArgument),
    };
    unwrap_exc_or(Ok(res), NULL_HANDLE)
}

/// Makes an iterator over the values of the index, from the first key that
/// is not below `key` on, and returns its handle.
#[allow(non_snake_case)]
pub fn Java_com_exonum_binding_storage_indices_MapIndexProxy_nativeValuesFrom(
    bridge: &mut Bridge,
    map_handle: i64,
    key: Option<Vec<u8>>,
) -> (r: Outcome<i64>)
    requires
        old(bridge).wf(),
    ensures
        final(bridge).wf(),
        match key {
            Some(k) => final(bridge).opened(
                old(bridge),
                map_handle,
                IterKind::Values,
                CursorView::From(k@),
                r.result(),
            ),
            None => refused(final(bridge), old(bridge), r.result()),
        },
        r.raised is Some ==> r.value == NULL_HANDLE,
{
    let res = match key {
        Some(k) => bridge.values_from(map_handle, k),
        None => Err(BridgeError::InvalidArgument),
    };
    unwrap_exc_or(Ok(res), NULL_HANDLE)
}

/// Keeps `value` under `key` in the index.
#[allow(non_snake_case)]
pub fn Java_com_exonum_binding_storage_indices_MapIndexProxy_nativePut(
    bridge: &mut Bridge,
    map_handle: i64,
    key: Option<Vec<u8>>,
    value: Option<Vec<u8>>,
) -> (r: Outcome<()>)
    requires
        old(bridge).wf(),
    ensures
        final(bridge).wf(),
        match old(bridge).write_allowed(map_handle) {
            Ok(_) => match (key, value) {
                (Some(k), Some(v)) => final(bridge).written(
                    old(bridge),
                    map_handle,
                    Write::Put(k@, v@),
                    r.result(),
                ),
                _ => refused(final(bridge), old(bridge), r.result()),
            },
            Err(e) => r.result() == Err::<(), BridgeError>(e) && final(bridge).unchanged(
                old(bridge),
            ),
        },
{
    let res = match bridge.check_writable(map_handle) {
        Ok(_) => match (key, value) {
            (Some(k), Some(v)) => bridge.put(map_handle, k, v),
            _ => Err(BridgeError::InvalidArgument),
        },
        Err(e) => Err(e),
    };
    unwrap_exc_or(Ok(res), ())
}

/// Drops `key` and its value from the index.
#[allow(non_snake_case)]
pub fn Java_com_exonum_binding_storage_indices_MapIndexProxy_nativeRemove(
    bridge: &mut Bridge,
    map_handle: i64,
    key: Option<Vec<u8>>,
) -> (r: Outcome<()>)
    requires
        old(bridge).wf(),
    ensures
        final(bridge).wf(),
        match old(bridge).write_allowed(map_handle) {
            Ok(_) => match key {
                Some(k) => final(bridge).written(
                    old(bridge),
                    map_handle,
                    Write::Remove(k@),
                    r.result(),
                ),
                None => refused(final(bridge), old(bridge), r.result()),
            },
            Err(e) => r.result() == Err::<(), BridgeError>(e) && final(bridge).unchanged(
                old(bridge),
            ),
        },
{
    let res = match bridge.check_writable(map_handle) {
        Ok(_) => match key {
            Some(k) => bridge.remove(map_handle, k),
            None => Err(BridgeError::InvalidArgument),
        },
        Err(e) => Err(e),
    };
    unwrap_exc_or(Ok(res), ())
}

/// Drops every entry of the index.
#[allow(non_snake_case)]
pub fn Java_com_exonum_binding_storage_indices_MapIndexProxy_nativeClear(
    bridge: &mut Bridge,
    map_handle: i64,
) -> (r: Outcome<()>)
    requires
        old(bridge).wf(),
    ensures
        final(bridge).wf(),
        final(bridge).written(old(bridge), map_handle, Write::Clear, r.result()),
{
    unwrap_exc_or(Ok(bridge.clear(map_handle)), ())
}

/// Returns the next pair of the entries iterator, or `None` once the
/// iterator is through.
#[allow(non_snake_case)]
pub fn Java_com_exonum_binding_storage_indices_MapIndexProxy_nativeEntriesIterNext(
    bridge: &mut Bridge,
    iter_handle: i64,
) -> (r: Outcome<Option<Entry>>)
    requires
        old(bridge).wf(),
    ensures
        final(bridge).wf(),
        final(bridge).stepped(old(bridge), iter_handle, IterKind::Entries),
        step_view(r.result()) == old(bridge).yielded(iter_handle, IterKind::Entries),
        r.raised is Some ==> r.value is None,
{
    unwrap_exc_or(Ok(bridge.entries_next(iter_handle)), None)
}

/// Frees the entries iterator under `iter_handle`.
#[allow(non_snake_case)]
pub fn Java_com_exonum_binding_storage_indices_MapIndexProxy_nativeEntriesIterFree(
    bridge: &mut Bridge,
    iter_handle: i64,
) -> (r: Outcome<()>)
    requires
        old(bridge).wf(),
    ensures
        final(bridge).wf(),
        final(bridge).freed(old(bridge), iter_handle, Kind::Iter(IterKind::Entries), r.result()),
{
    unwrap_exc_or(Ok(bridge.destroy(iter_handle, Kind::Iter(IterKind::Entries))), ())
}

/// Returns the next key of the keys iterator, or `None` once the iterator
/// is through.
#[allow(non_snake_case)]
pub fn Java_com_exonum_binding_storage_indices_MapIndexProxy_nativeKeysIterNext(
    bridge: &mut Bridge,
    iter_handle: i64,
) -> (r: Outcome<Option<Vec<u8>>>)
    requires
        old(bridge).wf(),
    ensures
        final(bridge).wf(),
        final(bridge).stepped(old(bridge), iter_handle, IterKind::Keys),
        match old(bridge).yielded(iter_handle, IterKind::Keys) {
            Ok(Some(p)) => r.raised is None && bytes_view(r.value) == Some(p.0),
            Ok(None) => r.raised is None && r.value is None,
            Err(e) => r.raised == Some(e) && r.value is None,
        },
{
    unwrap_exc_or(Ok(bridge.keys_next(iter_handle)), None)
}

/// Frees the keys iterator under `iter_handle`.
#[allow(non_snake_case)]
pub fn Java_com_exonum_binding_storage_indices_MapIndexProxy_nativeKeysIterFree(
    bridge: &mut Bridge,
    iter_handle: i64,
) -> (r: Outcome<()>)
    requires
        old(bridge).wf(),
    ensures
        final(bridge).wf(),
        final(bridge).freed(old(bridge), iter_handle, Kind::Iter(IterKind::Keys), r.result()),
{
    unwrap_exc_or(Ok(bridge.destroy(iter_handle, Kind::Iter(IterKind::Keys))), ())
}

/// Returns the next value of the values iterator, or `None` once the
/// iterator is through.
#[allow(non_snake_case)]
pub fn Java_com_exonum_binding_storage_indices_MapIndexProxy_nativeValuesIterNext(
    bridge: &mut Bridge,
    iter_handle: i64,
) -> (r: Outcome<Option<Vec<u8>>>)
    requires
        old(bridge).wf(),
    ensures
        final(bridge).wf(),
        final(bridge).stepped(old(bridge), iter_handle, IterKind::Values),
        match old(bridge).yielded(iter_handle, IterKind::Values) {
            Ok(Some(p)) => r.raised is None && bytes_view(r.value) == Some(p.1),
            Ok(None) => r.raised is None && r.value is None,
            Err(e) => r.raised == Some(e) && r.value is None,
        },
{
    unwrap_exc_or(Ok(bridge.values_next(iter_handle)), None)
}

/// Frees the values iterator under `iter_handle`.
#[allow(non_snake_case)]
pub fn Java_com_exonum_binding_storage_indices_MapIndexProxy_nativeValuesIterFree(
    bridge: &mut Bridge,
    iter_handle: i64,
) -> (r: Outcome<()>)
    requires
        old(bridge).wf(),
    ensures
        final(bridge).wf(),
        final(bridge).freed(old(bridge), iter_handle, Kind::Iter(IterKind::Values), r.result()),
{
    unwrap_exc_or(Ok(bridge.destroy(iter_handle, Kind::Iter(IterKind::Values))), ())
}

} // verus!
