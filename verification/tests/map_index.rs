use java_bindings::bridge::Bridge;
use java_bindings::error::{BridgeError, Outcome};
use java_bindings::handle::NULL_HANDLE;
use java_bindings::map_index::{
    Java_com_exonum_binding_storage_indices_MapIndexProxy_nativeClear as native_clear,
    Java_com_exonum_binding_storage_indices_MapIndexProxy_nativeContainsKey as native_contains_key,
    Java_com_exonum_binding_storage_indices_MapIndexProxy_nativeCreate as native_create,
    Java_com_exonum_binding_storage_indices_MapIndexProxy_nativeCreateEntriesIter as native_create_entries_iter,
    Java_com_exonum_binding_storage_indices_MapIndexProxy_nativeCreateInGroup as native_create_in_group,
    Java_com_exonum_binding_storage_indices_MapIndexProxy_nativeCreateIterFrom as native_create_iter_from,
    Java_com_exonum_binding_storage_indices_MapIndexProxy_nativeCreateKeysIter as native_create_keys_iter,
    Java_com_exonum_binding_storage_indices_MapIndexProxy_nativeCreateValuesIter as native_create_values_iter,
    Java_com_exonum_binding_storage_indices_MapIndexProxy_nativeEntriesIterFree as native_entries_iter_free,
    Java_com_exonum_binding_storage_indices_MapIndexProxy_nativeEntriesIterNext as native_entries_iter_next,
    Java_com_exonum_binding_storage_indices_MapIndexProxy_nativeFree as native_free,
    Java_com_exonum_binding_storage_indices_MapIndexProxy_nativeGet as native_get,
    Java_com_exonum_binding_storage_indices_MapIndexProxy_nativeKeysFrom as native_keys_from,
    Java_com_exonum_binding_storage_indices_MapIndexProxy_nativeKeysIterFree as native_keys_iter_free,
    Java_com_exonum_binding_storage_indices_MapIndexProxy_nativeKeysIterNext as native_keys_iter_next,
    Java_com_exonum_binding_storage_indices_MapIndexProxy_nativePut as native_put,
    Java_com_exonum_binding_storage_indices_MapIndexProxy_nativeRemove as native_remove,
    Java_com_exonum_binding_storage_indices_MapIndexProxy_nativeValuesFrom as native_values_from,
    Java_com_exonum_binding_storage_indices_MapIndexProxy_nativeValuesIterFree as native_values_iter_free,
    Java_com_exonum_binding_storage_indices_MapIndexProxy_nativeValuesIterNext as native_values_iter_next,
    JAVA_ENTRY_FQN,
};
use java_bindings::memorydb::{
    Java_com_exonum_storage_DB_MemoryDB_nativeCreateMemoryDB as native_create_memory_db,
    Java_com_exonum_storage_DB_MemoryDB_nativeFreeMemoryDB as native_free_memory_db,
    Java_com_exonum_storage_DB_MemoryDB_nativeFreeView as native_free_view,
    Java_com_exonum_storage_DB_MemoryDB_nativeLookupFork as native_lookup_fork,
    Java_com_exonum_storage_DB_MemoryDB_nativeLookupSnapshot as native_lookup_snapshot,
};

fn ok<T>(outcome: Outcome<T>) -> T {
    assert_eq!(outcome.raised, None);
    outcome.value
}

fn raised<T>(outcome: Outcome<T>) -> BridgeError {
    match outcome.raised {
        Some(e) => e,
        None => panic!("the call raised nothing"),
    }
}

fn name(text: &str) -> Option<String> {
    Some(text.to_string())
}

fn bytes(text: &str) -> Option<Vec<u8>> {
    Some(text.as_bytes().to_vec())
}

/// A bridge with one database, a fork of it and a snapshot of it.
fn setup() -> (Bridge, i64, i64, i64) {
    let mut bridge = Bridge::new();
    let db = ok(native_create_memory_db(&mut bridge));
    let fork = ok(native_lookup_fork(&mut bridge, db));
    let snapshot = ok(native_lookup_snapshot(&mut bridge, db));
    (bridge, db, fork, snapshot)
}

fn drain_entries(bridge: &mut Bridge, iter: i64) -> Vec<(Vec<u8>, Vec<u8>)> {
    let mut out = Vec::new();
    loop {
        match ok(native_entries_iter_next(bridge, iter)) {
            Some(e) => out.push((e.key, e.value)),
            None => return out,
        }
    }
}

fn drain_keys(bridge: &mut Bridge, iter: i64) -> Vec<Vec<u8>> {
    let mut out = Vec::new();
    loop {
        match ok(native_keys_iter_next(bridge, iter)) {
            Some(k) => out.push(k),
            None => return out,
        }
    }
}

fn drain_values(bridge: &mut Bridge, iter: i64) -> Vec<Vec<u8>> {
    let mut out = Vec::new();
    loop {
        match ok(native_values_iter_next(bridge, iter)) {
            Some(v) => out.push(v),
            None => return out,
        }
    }
}

fn pair(k: &str, v: u8) -> (Vec<u8>, Vec<u8>) {
    (k.as_bytes().to_vec(), vec![v])
}

#[test]
fn fork_backed_map_scenario() {
    let (mut bridge, _, fork, _) = setup();
    let m = ok(native_create(&mut bridge, name("m"), fork));
    ok(native_put(&mut bridge, m, bytes("b"), Some(vec![2])));
    ok(native_put(&mut bridge, m, bytes("a"), Some(vec![1])));
    ok(native_put(&mut bridge, m, bytes("c"), Some(vec![3])));

    let it = ok(native_create_entries_iter(&mut bridge, m));
    assert_eq!(drain_entries(&mut bridge, it), vec![pair("a", 1), pair("b", 2), pair("c", 3)]);

    let from_b = ok(native_create_iter_from(&mut bridge, m, bytes("b")));
    assert_eq!(drain_entries(&mut bridge, from_b), vec![pair("b", 2), pair("c", 3)]);

    ok(native_remove(&mut bridge, m, bytes("b")));
    assert_eq!(ok(native_get(&bridge, m, bytes("b"))), None);

    ok(native_clear(&mut bridge, m));
    let after = ok(native_create_entries_iter(&mut bridge, m));
    assert_eq!(drain_entries(&mut bridge, after), vec![]);
}

#[test]
fn key_that_was_never_put_is_absent() {
    let (mut bridge, _, fork, snapshot) = setup();
    let on_fork = ok(native_create(&mut bridge, name("m"), fork));
    let on_snapshot = ok(native_create(&mut bridge, name("m"), snapshot));
    for m in [on_fork, on_snapshot] {
        assert_eq!(ok(native_contains_key(&bridge, m, bytes("k"))), false);
        assert_eq!(ok(native_get(&bridge, m, bytes("k"))), None);
        assert_eq!(ok(native_get(&bridge, m, bytes(""))), None);
    }
    ok(native_put(&mut bridge, on_fork, bytes("other"), Some(vec![9])));
    ok(native_remove(&mut bridge, on_fork, bytes("k")));
    assert_eq!(ok(native_contains_key(&bridge, on_fork, bytes("k"))), false);
    assert_eq!(ok(native_get(&bridge, on_fork, bytes("k"))), None);
}

#[test]
fn put_value_is_found_until_it_is_touched() {
    let (mut bridge, _, fork, _) = setup();
    let m = ok(native_create(&mut bridge, name("m"), fork));
    ok(native_put(&mut bridge, m, bytes("k"), Some(vec![1, 2, 3])));
    assert_eq!(ok(native_get(&bridge, m, bytes("k"))), Some(vec![1, 2, 3]));
    assert_eq!(ok(native_contains_key(&bridge, m, bytes("k"))), true);

    ok(native_put(&mut bridge, m, bytes("j"), Some(vec![7])));
    ok(native_remove(&mut bridge, m, bytes("l")));
    assert_eq!(ok(native_get(&bridge, m, bytes("k"))), Some(vec![1, 2, 3]));

    ok(native_put(&mut bridge, m, bytes("k"), Some(vec![4])));
    assert_eq!(ok(native_get(&bridge, m, bytes("k"))), Some(vec![4]));
    assert_eq!(ok(native_contains_key(&bridge, m, bytes("k"))), true);
    let it = ok(native_create_entries_iter(&mut bridge, m));
    assert_eq!(drain_entries(&mut bridge, it), vec![pair("j", 7), pair("k", 4)]);
}

#[test]
fn empty_key_and_empty_value_are_kept() {
    let (mut bridge, _, fork, _) = setup();
    let m = ok(native_create(&mut bridge, name("m"), fork));
    ok(native_put(&mut bridge, m, bytes(""), Some(vec![])));
    assert_eq!(ok(native_get(&bridge, m, bytes(""))), Some(vec![]));
    assert_eq!(ok(native_contains_key(&bridge, m, bytes(""))), true);
    ok(native_put(&mut bridge, m, Some(vec![0]), Some(vec![1])));
    let it = ok(native_create_entries_iter(&mut bridge, m));
    assert_eq!(drain_entries(&mut bridge, it), vec![(vec![], vec![]), (vec![0], vec![1])]);
}

#[test]
fn removed_key_is_absent_and_removing_an_absent_key_is_no_error() {
    let (mut bridge, _, fork, _) = setup();
    let m = ok(native_create(&mut bridge, name("m"), fork));
    ok(native_put(&mut bridge, m, bytes("k"), Some(vec![1])));
    ok(native_put(&mut bridge, m, bytes("l"), Some(vec![2])));
    ok(native_remove(&mut bridge, m, bytes("k")));
    assert_eq!(ok(native_get(&bridge, m, bytes("k"))), None);
    assert_eq!(ok(native_contains_key(&bridge, m, bytes("k"))), false);
    assert_eq!(native_remove(&mut bridge, m, bytes("k")).raised, None);
    assert_eq!(native_remove(&mut bridge, m, bytes("never")).raised, None);
    assert_eq!(ok(native_get(&bridge, m, bytes("l"))), Some(vec![2]));
}

#[test]
fn clear_empties_one_index_and_leaves_its_siblings() {
    let (mut bridge, _, fork, _) = setup();
    let m = ok(native_create(&mut bridge, name("m"), fork));
    let other_name = ok(native_create(&mut bridge, name("n"), fork));
    let member = ok(native_create_in_group(&mut bridge, name("m"), Some(vec![1]), fork));
    let sibling = ok(native_create_in_group(&mut bridge, name("m"), Some(vec![2]), fork));
    for index in [m, other_name, member, sibling] {
        ok(native_put(&mut bridge, index, bytes("a"), Some(vec![1])));
        ok(native_put(&mut bridge, index, bytes("b"), Some(vec![2])));
    }
    ok(native_clear(&mut bridge, member));
    assert_eq!(ok(native_contains_key(&bridge, member, bytes("a"))), false);
    assert_eq!(ok(native_contains_key(&bridge, member, bytes("b"))), false);
    for index in [m, other_name, sibling] {
        assert_eq!(ok(native_get(&bridge, index, bytes("a"))), Some(vec![1]));
        assert_eq!(ok(native_get(&bridge, index, bytes("b"))), Some(vec![2]));
    }
    ok(native_clear(&mut bridge, m));
    assert_eq!(ok(native_contains_key(&bridge, m, bytes("a"))), false);
    for index in [other_name, sibling] {
        assert_eq!(ok(native_get(&bridge, index, bytes("a"))), Some(vec![1]));
    }
    assert_eq!(native_clear(&mut bridge, m).raised, None);
}

#[test]
fn iteration_is_in_key_order_whatever_the_order_of_puts() {
    let keys: [&[u8]; 6] = [b"b", b"", b"ab", b"a", b"\xff", b"b\x00"];
    let sorted: Vec<Vec<u8>> =
        vec![b"".to_vec(), b"a".to_vec(), b"ab".to_vec(), b"b".to_vec(), b"b\x00".to_vec(), b"\xff".to_vec()];
    let orders: [[usize; 6]; 3] = [[0, 1, 2, 3, 4, 5], [5, 4, 3, 2, 1, 0], [2, 5, 0, 3, 1, 4]];
    for order in orders {
        let (mut bridge, _, fork, _) = setup();
        let m = ok(native_create(&mut bridge, name("m"), fork));
        for i in order {
            ok(native_put(&mut bridge, m, Some(keys[i].to_vec()), Some(vec![keys[i].len() as u8])));
        }
        let it = ok(native_create_keys_iter(&mut bridge, m));
        assert_eq!(drain_keys(&mut bridge, it), sorted);
        let values = ok(native_create_values_iter(&mut bridge, m));
        assert_eq!(
            drain_values(&mut bridge, values),
            vec![vec![0], vec![1], vec![2], vec![1], vec![2], vec![1]]
        );
    }
}

#[test]
fn iteration_from_a_key_yields_the_suffix() {
    let (mut bridge, _, fork, _) = setup();
    let m = ok(native_create(&mut bridge, name("m"), fork));
    for (k, v) in [("d", 4), ("b", 2), ("f", 6)] {
        ok(native_put(&mut bridge, m, bytes(k), Some(vec![v])));
    }
    let cases: [(&str, Vec<(Vec<u8>, Vec<u8>)>); 6] = [
        ("", vec![pair("b", 2), pair("d", 4), pair("f", 6)]),
        ("b", vec![pair("b", 2), pair("d", 4), pair("f", 6)]),
        ("c", vec![pair("d", 4), pair("f", 6)]),
        ("d", vec![pair("d", 4), pair("f", 6)]),
        ("da", vec![pair("f", 6)]),
        ("g", vec![]),
    ];
    for (from, expected) in cases {
        let entries = ok(native_create_iter_from(&mut bridge, m, bytes(from)));
        assert_eq!(drain_entries(&mut bridge, entries), expected);
        let keys = ok(native_keys_from(&mut bridge, m, bytes(from)));
        let expected_keys: Vec<Vec<u8>> = expected.iter().map(|p| p.0.clone()).collect();
        assert_eq!(drain_keys(&mut bridge, keys), expected_keys);
        let values = ok(native_values_from(&mut bridge, m, bytes(from)));
        let expected_values: Vec<Vec<u8>> = expected.iter().map(|p| p.1.clone()).collect();
        assert_eq!(drain_values(&mut bridge, values), expected_values);
    }
}

#[test]
fn exhausted_iterator_stays_exhausted() {
    let (mut bridge, _, fork, _) = setup();
    let m = ok(native_create(&mut bridge, name("m"), fork));
    ok(native_put(&mut bridge, m, bytes("a"), Some(vec![1])));
    let it = ok(native_create_entries_iter(&mut bridge, m));
    assert_eq!(drain_entries(&mut bridge, it), vec![pair("a", 1)]);
    ok(native_put(&mut bridge, m, bytes("z"), Some(vec![26])));
    assert!(ok(native_entries_iter_next(&mut bridge, it)).is_none());
    assert!(ok(native_entries_iter_next(&mut bridge, it)).is_none());
    let again = ok(native_create_entries_iter(&mut bridge, m));
    assert_eq!(drain_entries(&mut bridge, again), vec![pair("a", 1), pair("z", 26)]);
}

#[test]
fn iterator_sees_writes_that_lie_ahead_of_it() {
    let (mut bridge, _, fork, _) = setup();
    let m = ok(native_create(&mut bridge, name("m"), fork));
    ok(native_put(&mut bridge, m, bytes("b"), Some(vec![2])));
    ok(native_put(&mut bridge, m, bytes("d"), Some(vec![4])));
    let it = ok(native_create_keys_iter(&mut bridge, m));
    assert_eq!(ok(native_keys_iter_next(&mut bridge, it)), Some(b"b".to_vec()));
    ok(native_put(&mut bridge, m, bytes("a"), Some(vec![1])));
    ok(native_put(&mut bridge, m, bytes("c"), Some(vec![3])));
    ok(native_remove(&mut bridge, m, bytes("d")));
    assert_eq!(ok(native_keys_iter_next(&mut bridge, it)), Some(b"c".to_vec()));
    assert_eq!(ok(native_keys_iter_next(&mut bridge, it)), None);
}

#[test]
fn snapshot_refuses_every_write_and_stays_as_it_is() {
    let (mut bridge, _, fork, snapshot) = setup();
    let on_fork = ok(native_create(&mut bridge, name("m"), fork));
    ok(native_put(&mut bridge, on_fork, bytes("k"), Some(vec![1])));
    let m = ok(native_create(&mut bridge, name("m"), snapshot));
    assert_eq!(raised(native_put(&mut bridge, m, bytes("k"), Some(vec![1]))), BridgeError::IllegalMutation);
    assert_eq!(raised(native_remove(&mut bridge, m, bytes("k"))), BridgeError::IllegalMutation);
    assert_eq!(raised(native_clear(&mut bridge, m)), BridgeError::IllegalMutation);
    assert_eq!(ok(native_get(&bridge, m, bytes("k"))), None);
    assert_eq!(ok(native_contains_key(&bridge, m, bytes("k"))), false);
    let it = ok(native_create_entries_iter(&mut bridge, m));
    assert_eq!(drain_entries(&mut bridge, it), vec![]);
    assert_eq!(ok(native_get(&bridge, on_fork, bytes("k"))), Some(vec![1]));
    let grouped = ok(native_create_in_group(&mut bridge, name("g"), Some(vec![1]), snapshot));
    assert_eq!(raised(native_put(&mut bridge, grouped, bytes("k"), Some(vec![1]))), BridgeError::IllegalMutation);
}

#[test]
fn write_to_snapshot_is_refused_before_arguments_are_looked_at() {
    let (mut bridge, _, fork, snapshot) = setup();
    let m = ok(native_create(&mut bridge, name("m"), snapshot));
    assert_eq!(raised(native_put(&mut bridge, m, None, None)), BridgeError::IllegalMutation);
    assert_eq!(raised(native_remove(&mut bridge, m, None)), BridgeError::IllegalMutation);
    let w = ok(native_create(&mut bridge, name("m"), fork));
    assert_eq!(raised(native_put(&mut bridge, w, None, Some(vec![1]))), BridgeError::InvalidArgument);
    assert_eq!(raised(native_put(&mut bridge, w, bytes("k"), None)), BridgeError::InvalidArgument);
    assert_eq!(raised(native_remove(&mut bridge, w, None)), BridgeError::InvalidArgument);
    assert_eq!(ok(native_contains_key(&bridge, w, bytes("k"))), false);
    assert_eq!(raised(native_put(&mut bridge, NULL_HANDLE, None, None)), BridgeError::UseAfterFree);
}

#[test]
fn family_members_do_not_see_each_other() {
    let (mut bridge, _, fork, _) = setup();
    let a = ok(native_create_in_group(&mut bridge, name("g"), Some(vec![1]), fork));
    let b = ok(native_create_in_group(&mut bridge, name("g"), Some(vec![2]), fork));
    let longer = ok(native_create_in_group(&mut bridge, name("g"), Some(vec![1, 2]), fork));
    let empty_id = ok(native_create_in_group(&mut bridge, name("g"), Some(vec![]), fork));
    let plain = ok(native_create(&mut bridge, name("g"), fork));
    ok(native_put(&mut bridge, a, bytes("k"), Some(vec![1])));
    ok(native_put(&mut bridge, a, Some(vec![2, 3]), Some(vec![4])));
    for other in [b, longer, empty_id, plain] {
        assert_eq!(ok(native_contains_key(&bridge, other, bytes("k"))), false);
        assert_eq!(ok(native_contains_key(&bridge, other, Some(vec![3]))), false);
        assert_eq!(ok(native_contains_key(&bridge, other, Some(vec![2, 3]))), false);
        assert_eq!(ok(native_contains_key(&bridge, other, Some(vec![1, 2, 3]))), false);
        let it = ok(native_create_entries_iter(&mut bridge, other));
        assert_eq!(drain_entries(&mut bridge, it), vec![]);
    }
    ok(native_put(&mut bridge, b, bytes("k"), Some(vec![2])));
    assert_eq!(ok(native_get(&bridge, a, bytes("k"))), Some(vec![1]));
    assert_eq!(ok(native_get(&bridge, b, bytes("k"))), Some(vec![2]));
}

#[test]
fn two_indexes_on_one_table_show_the_same() {
    let (mut bridge, _, fork, _) = setup();
    let first = ok(native_create_in_group(&mut bridge, name("g"), Some(vec![7]), fork));
    let second = ok(native_create_in_group(&mut bridge, name("g"), Some(vec![7]), fork));
    ok(native_put(&mut bridge, first, bytes("k"), Some(vec![1])));
    assert_eq!(ok(native_get(&bridge, second, bytes("k"))), Some(vec![1]));
}

#[test]
fn forks_do_not_share_writes() {
    let (mut bridge, db, fork, _) = setup();
    let other_fork = ok(native_lookup_fork(&mut bridge, db));
    let m = ok(native_create(&mut bridge, name("m"), fork));
    let n = ok(native_create(&mut bridge, name("m"), other_fork));
    ok(native_put(&mut bridge, m, bytes("k"), Some(vec![1])));
    assert_eq!(ok(native_get(&bridge, n, bytes("k"))), None);
    let later = ok(native_lookup_snapshot(&mut bridge, db));
    let s = ok(native_create(&mut bridge, name("m"), later));
    assert_eq!(ok(native_get(&bridge, s, bytes("k"))), None);
}

#[test]
fn undecodable_arguments_are_invalid() {
    let (mut bridge, _, fork, _) = setup();
    let created = native_create(&mut bridge, None, fork);
    assert_eq!(created.value, NULL_HANDLE);
    assert_eq!(created.raised, Some(BridgeError::InvalidArgument));
    assert_eq!(raised(native_create_in_group(&mut bridge, None, Some(vec![1]), fork)), BridgeError::InvalidArgument);
    assert_eq!(raised(native_create_in_group(&mut bridge, name("g"), None, fork)), BridgeError::InvalidArgument);
    assert_eq!(raised(native_create(&mut bridge, None, NULL_HANDLE)), BridgeError::InvalidArgument);
    let m = ok(native_create(&mut bridge, name("m"), fork));
    let got = native_get(&bridge, m, None);
    assert_eq!(got.value, None);
    assert_eq!(got.raised, Some(BridgeError::InvalidArgument));
    let contained = native_contains_key(&bridge, m, None);
    assert_eq!(contained.value, false);
    assert_eq!(contained.raised, Some(BridgeError::InvalidArgument));
    assert_eq!(raised(native_get(&bridge, NULL_HANDLE, None)), BridgeError::InvalidArgument);
    assert_eq!(raised(native_create_iter_from(&mut bridge, m, None)), BridgeError::InvalidArgument);
    assert_eq!(raised(native_keys_from(&mut bridge, m, None)), BridgeError::InvalidArgument);
    assert_eq!(raised(native_values_from(&mut bridge, m, None)), BridgeError::InvalidArgument);
}

#[test]
fn handle_of_another_kind_is_type_confusion() {
    let (mut bridge, db, fork, _) = setup();
    let m = ok(native_create(&mut bridge, name("m"), fork));
    let entries = ok(native_create_entries_iter(&mut bridge, m));
    let keys = ok(native_create_keys_iter(&mut bridge, m));
    let values = ok(native_create_values_iter(&mut bridge, m));
    assert_eq!(raised(native_create(&mut bridge, name("m"), db)), BridgeError::TypeConfusion);
    assert_eq!(raised(native_create(&mut bridge, name("m"), m)), BridgeError::TypeConfusion);
    assert_eq!(raised(native_lookup_fork(&mut bridge, fork)), BridgeError::TypeConfusion);
    assert_eq!(raised(native_lookup_snapshot(&mut bridge, m)), BridgeError::TypeConfusion);
    assert_eq!(raised(native_get(&bridge, fork, bytes("k"))), BridgeError::TypeConfusion);
    assert_eq!(raised(native_contains_key(&bridge, entries, bytes("k"))), BridgeError::TypeConfusion);
    assert_eq!(raised(native_put(&mut bridge, fork, bytes("k"), Some(vec![1]))), BridgeError::TypeConfusion);
    assert_eq!(raised(native_clear(&mut bridge, db)), BridgeError::TypeConfusion);
    assert_eq!(raised(native_create_entries_iter(&mut bridge, fork)), BridgeError::TypeConfusion);
    assert_eq!(raised(native_entries_iter_next(&mut bridge, keys)), BridgeError::TypeConfusion);
    assert_eq!(raised(native_keys_iter_next(&mut bridge, values)), BridgeError::TypeConfusion);
    assert_eq!(raised(native_values_iter_next(&mut bridge, entries)), BridgeError::TypeConfusion);
    assert_eq!(raised(native_values_iter_next(&mut bridge, m)), BridgeError::TypeConfusion);
    assert_eq!(raised(native_free(&mut bridge, fork)), BridgeError::TypeConfusion);
    assert_eq!(raised(native_free_view(&mut bridge, db)), BridgeError::TypeConfusion);
    assert_eq!(raised(native_free_memory_db(&mut bridge, fork)), BridgeError::TypeConfusion);
    assert_eq!(raised(native_entries_iter_free(&mut bridge, keys)), BridgeError::TypeConfusion);
    assert_eq!(raised(native_keys_iter_free(&mut bridge, values)), BridgeError::TypeConfusion);
    assert_eq!(raised(native_values_iter_free(&mut bridge, entries)), BridgeError::TypeConfusion);
    // Nothing was freed by the refused calls.
    ok(native_put(&mut bridge, m, bytes("k"), Some(vec![1])));
    assert_eq!(ok(native_keys_iter_next(&mut bridge, keys)), Some(b"k".to_vec()));
}

#[test]
fn freed_handle_names_nothing() {
    let (mut bridge, db, fork, snapshot) = setup();
    let m = ok(native_create(&mut bridge, name("m"), fork));
    let it = ok(native_create_entries_iter(&mut bridge, m));
    ok(native_entries_iter_free(&mut bridge, it));
    assert_eq!(raised(native_entries_iter_free(&mut bridge, it)), BridgeError::UseAfterFree);
    assert_eq!(raised(native_entries_iter_next(&mut bridge, it)), BridgeError::UseAfterFree);
    ok(native_free(&mut bridge, m));
    assert_eq!(raised(native_free(&mut bridge, m)), BridgeError::UseAfterFree);
    assert_eq!(raised(native_get(&bridge, m, bytes("k"))), BridgeError::UseAfterFree);
    assert_eq!(raised(native_put(&mut bridge, m, bytes("k"), Some(vec![1]))), BridgeError::UseAfterFree);
    ok(native_free_view(&mut bridge, snapshot));
    assert_eq!(raised(native_free_view(&mut bridge, snapshot)), BridgeError::UseAfterFree);
    assert_eq!(raised(native_create(&mut bridge, name("m"), snapshot)), BridgeError::UseAfterFree);
    ok(native_free_memory_db(&mut bridge, db));
    assert_eq!(raised(native_free_memory_db(&mut bridge, db)), BridgeError::UseAfterFree);
    let looked_up = native_lookup_fork(&mut bridge, db);
    assert_eq!(looked_up.value, NULL_HANDLE);
    assert_eq!(looked_up.raised, Some(BridgeError::UseAfterFree));
    // The fork outlives its database.
    let again = ok(native_create(&mut bridge, name("m"), fork));
    ok(native_put(&mut bridge, again, bytes("k"), Some(vec![1])));
    assert_eq!(ok(native_get(&bridge, again, bytes("k"))), Some(vec![1]));
}

#[test]
fn handle_that_was_never_given_out_names_nothing() {
    let (mut bridge, _, _, _) = setup();
    for raw in [NULL_HANDLE, -1, 1, 0xffff_ffff, 0x1_0000_0007, i64::MAX, i64::MIN] {
        assert_eq!(raised(native_get(&bridge, raw, bytes("k"))), BridgeError::UseAfterFree);
        assert_eq!(raised(native_create(&mut bridge, name("m"), raw)), BridgeError::UseAfterFree);
        assert_eq!(raised(native_free_view(&mut bridge, raw)), BridgeError::UseAfterFree);
        assert_eq!(raised(native_keys_iter_next(&mut bridge, raw)), BridgeError::UseAfterFree);
    }
}

#[test]
fn child_of_a_freed_parent_reports_use_after_free() {
    let (mut bridge, _, fork, _) = setup();
    let m = ok(native_create(&mut bridge, name("m"), fork));
    ok(native_put(&mut bridge, m, bytes("a"), Some(vec![1])));
    let it = ok(native_create_entries_iter(&mut bridge, m));
    let keys = ok(native_create_keys_iter(&mut bridge, m));
    ok(native_free(&mut bridge, m));
    assert_eq!(raised(native_entries_iter_next(&mut bridge, it)), BridgeError::UseAfterFree);
    ok(native_entries_iter_free(&mut bridge, it));

    let n = ok(native_create(&mut bridge, name("m"), fork));
    let values = ok(native_create_values_iter(&mut bridge, n));
    ok(native_free_view(&mut bridge, fork));
    assert_eq!(raised(native_get(&bridge, n, bytes("a"))), BridgeError::UseAfterFree);
    assert_eq!(raised(native_contains_key(&bridge, n, bytes("a"))), BridgeError::UseAfterFree);
    assert_eq!(raised(native_put(&mut bridge, n, bytes("a"), Some(vec![1]))), BridgeError::UseAfterFree);
    assert_eq!(raised(native_clear(&mut bridge, n)), BridgeError::UseAfterFree);
    assert_eq!(raised(native_create_entries_iter(&mut bridge, n)), BridgeError::UseAfterFree);
    assert_eq!(raised(native_values_iter_next(&mut bridge, values)), BridgeError::UseAfterFree);
    assert_eq!(raised(native_keys_iter_next(&mut bridge, keys)), BridgeError::UseAfterFree);
    ok(native_values_iter_free(&mut bridge, values));
    ok(native_keys_iter_free(&mut bridge, keys));
    ok(native_free(&mut bridge, n));
}

#[test]
fn new_handle_never_equals_one_given_out_before() {
    let (mut bridge, db, fork, snapshot) = setup();
    let mut seen = vec![db, fork, snapshot];
    for _ in 0..20 {
        let m = ok(native_create(&mut bridge, name("m"), fork));
        assert!(m != NULL_HANDLE);
        assert!(!seen.contains(&m));
        seen.push(m);
        let it = ok(native_create_keys_iter(&mut bridge, m));
        assert!(!seen.contains(&it));
        seen.push(it);
        ok(native_keys_iter_free(&mut bridge, it));
        ok(native_free(&mut bridge, m));
    }
    // Freed handles stay dead although their slots were filled again.
    let live = ok(native_create(&mut bridge, name("m"), fork));
    for old in &seen[3..] {
        assert!(*old != live);
        assert_eq!(raised(native_get(&bridge, *old, bytes("k"))), BridgeError::UseAfterFree);
    }
}

#[test]
fn entry_record_name_is_the_hosts() {
    assert_eq!(JAVA_ENTRY_FQN, "com/exonum/binding/storage/indices/MapEntryInternal");
}
