use java_bindings::bridge::{Bridge, Kind};
use java_bindings::db::{Database, View};
use java_bindings::error::BridgeError;
use java_bindings::index::IterKind;
use java_bindings::lex::{copy_bytes, lex_less, same_bytes};
use java_bindings::store::{Namespace, Store};
use java_bindings::table::{Cursor, Entry, Table};

fn v(bytes: &[u8]) -> Vec<u8> {
    bytes.to_vec()
}

fn pairs(entries: Vec<Entry>) -> Vec<(Vec<u8>, Vec<u8>)> {
    entries.into_iter().map(|e| (e.key, e.value)).collect()
}

#[test]
fn byte_order_is_lexicographic() {
    assert!(lex_less(&v(b""), &v(b"a")));
    assert!(lex_less(&v(b"a"), &v(b"b")));
    assert!(lex_less(&v(b"a"), &v(b"ab")));
    assert!(lex_less(&v(b"ab"), &v(b"b")));
    assert!(lex_less(&v(&[0x7f]), &v(&[0x80])));
    assert!(lex_less(&v(&[1, 255]), &v(&[2])));
    assert!(!lex_less(&v(b"a"), &v(b"a")));
    assert!(!lex_less(&v(b""), &v(b"")));
    assert!(!lex_less(&v(b"b"), &v(b"a")));
    assert!(!lex_less(&v(b"ab"), &v(b"a")));
    assert!(!lex_less(&v(&[0x80]), &v(&[0x7f])));
}

#[test]
fn byte_strings_are_compared_and_copied_whole() {
    assert!(same_bytes(&v(b"abc"), &v(b"abc")));
    assert!(same_bytes(&v(b""), &v(b"")));
    assert!(!same_bytes(&v(b"abc"), &v(b"abd")));
    assert!(!same_bytes(&v(b"abc"), &v(b"ab")));
    assert_eq!(copy_bytes(&v(b"abc")), v(b"abc"));
    assert_eq!(copy_bytes(&v(b"")), v(b""));
}

#[test]
fn table_keeps_its_entries_sorted() {
    let mut t = Table::new();
    assert_eq!(t.len(), 0);
    t.put(v(b"b"), v(&[2]));
    t.put(v(b"a"), v(&[1]));
    t.put(v(b"c"), v(&[3]));
    t.put(v(b"b"), v(&[22]));
    assert_eq!(t.len(), 3);
    assert_eq!(t.find(&v(b"a")), Some(0));
    assert_eq!(t.find(&v(b"b")), Some(1));
    assert_eq!(t.find(&v(b"c")), Some(2));
    assert_eq!(t.find(&v(b"d")), None);
    assert_eq!(t.entry_at(1).value, v(&[22]));
    assert_eq!(t.get(&v(b"b")), Some(&v(&[22])));
    assert_eq!(t.get(&v(b"bb")), None);
    assert!(t.contains(&v(b"c")));
    assert!(!t.contains(&v(b"")));
    t.remove(&v(b"a"));
    t.remove(&v(b"zz"));
    assert_eq!(pairs(t.scan(&Cursor::Start)), vec![(v(b"b"), v(&[22])), (v(b"c"), v(&[3]))]);
    let copy = t.duplicate();
    t.clear();
    assert_eq!(t.len(), 0);
    assert_eq!(copy.len(), 2);
}

#[test]
fn cursor_parts_a_table() {
    let mut t = Table::new();
    for k in [b"b", b"d", b"f"] {
        t.put(v(k), v(k));
    }
    assert_eq!(t.seek(&Cursor::Start), 0);
    assert_eq!(t.seek(&Cursor::End), 3);
    assert_eq!(t.seek(&Cursor::From(v(b"a"))), 0);
    assert_eq!(t.seek(&Cursor::From(v(b"b"))), 0);
    assert_eq!(t.seek(&Cursor::After(v(b"b"))), 1);
    assert_eq!(t.seek(&Cursor::From(v(b"c"))), 1);
    assert_eq!(t.seek(&Cursor::After(v(b"c"))), 1);
    assert_eq!(t.seek(&Cursor::From(v(b"f"))), 2);
    assert_eq!(t.seek(&Cursor::After(v(b"f"))), 3);
    assert_eq!(t.seek(&Cursor::From(v(b"g"))), 3);
    assert_eq!(t.first(&Cursor::After(v(b"b"))).map(|e| e.key.clone()), Some(v(b"d")));
    assert!(t.first(&Cursor::After(v(b"f"))).is_none());
    assert!(t.first(&Cursor::End).is_none());
    assert_eq!(pairs(t.scan(&Cursor::From(v(b"c")))), vec![(v(b"d"), v(b"d")), (v(b"f"), v(b"f"))]);
    assert_eq!(pairs(t.scan(&Cursor::End)), vec![]);
    let e = t.entry_at(0).duplicate();
    assert_eq!((e.key, e.value), (v(b"b"), v(b"b")));
    assert_eq!(t.seek(&Cursor::After(v(b"b")).duplicate()), 1);
}

#[test]
fn store_keeps_one_table_for_each_namespace() {
    let mut s = Store::new();
    let plain = Namespace::new("g".to_string());
    let one = Namespace::new_in_family("g".to_string(), v(&[1]));
    let two = Namespace::new_in_family("g".to_string(), v(&[1, 2]));
    let other = Namespace::new("h".to_string());
    assert!(plain.same(&plain.duplicate()));
    assert!(one.same(&Namespace::new_in_family("g".to_string(), v(&[1]))));
    assert!(!plain.same(&one));
    assert!(!one.same(&two));
    assert!(!plain.same(&other));
    assert!(!one.same(&Namespace::new_in_family("h".to_string(), v(&[1]))));

    s.put(&one, v(&[2, 3]), v(&[1]));
    s.put(&plain, v(b"k"), v(&[2]));
    assert_eq!(s.get(&one, &v(&[2, 3])), Some(&v(&[1])));
    assert_eq!(s.get(&two, &v(&[3])), None);
    assert_eq!(s.get(&plain, &v(&[1, 2, 3])), None);
    assert!(s.contains(&plain, &v(b"k")));
    assert!(!s.contains(&other, &v(b"k")));
    assert_eq!(s.first(&plain, &Cursor::Start).map(|e| e.value.clone()), Some(v(&[2])));
    assert!(s.first(&other, &Cursor::Start).is_none());

    let copy = s.duplicate();
    s.clear(&one);
    s.remove(&plain, &v(b"k"));
    s.remove(&other, &v(b"k"));
    s.clear(&other);
    assert_eq!(pairs(s.scan(&one, &Cursor::Start)), vec![]);
    assert_eq!(pairs(s.scan(&plain, &Cursor::Start)), vec![]);
    assert_eq!(pairs(copy.scan(&one, &Cursor::Start)), vec![(v(&[2, 3]), v(&[1]))]);
    assert_eq!(pairs(copy.scan(&plain, &Cursor::Start)), vec![(v(b"k"), v(&[2]))]);
    assert_eq!(pairs(copy.scan(&other, &Cursor::Start)), vec![]);
}

#[test]
fn only_a_fork_gives_its_tables_for_writing() {
    let db = Database::new();
    let mut fork = View::Fork(db.fork());
    let mut snapshot = View::Snapshot(db.snapshot());
    assert!(fork.can_write());
    assert!(!snapshot.can_write());
    let ns = Namespace::new("m".to_string());
    match fork.writer() {
        Ok(store) => store.put(&ns, v(b"k"), v(&[1])),
        Err(_) => panic!("a fork takes writes"),
    }
    assert_eq!(fork.reader().get(&ns, &v(b"k")), Some(&v(&[1])));
    assert_eq!(snapshot.writer().err(), Some(BridgeError::IllegalMutation));
    assert_eq!(snapshot.reader().get(&ns, &v(b"k")), None);
    assert_eq!(db.snapshot().reader().get(&ns, &v(b"k")), None);
    let mut second = db.fork();
    second.writer().put(&ns, v(b"j"), v(&[2]));
    assert!(second.reader().contains(&ns, &v(b"j")));
    assert!(!fork.reader().contains(&ns, &v(b"j")));
}

#[test]
fn bridge_operations_return_results() {
    let mut bridge = Bridge::new();
    let db = bridge.create_database().unwrap();
    let fork = bridge.fork(db).unwrap();
    let snapshot = bridge.snapshot(db).unwrap();
    let m = bridge.index_new("m".to_string(), fork).unwrap();
    let g = bridge.index_new_in_family("m".to_string(), v(&[1]), fork).unwrap();
    let s = bridge.index_new("m".to_string(), snapshot).unwrap();
    assert_eq!(bridge.check_writable(m), Ok(()));
    assert_eq!(bridge.check_writable(s), Err(BridgeError::IllegalMutation));
    assert_eq!(bridge.check_writable(fork), Err(BridgeError::TypeConfusion));
    assert_eq!(bridge.check_writable(0), Err(BridgeError::UseAfterFree));
    assert_eq!(bridge.put(m, v(b"k"), v(&[1])), Ok(()));
    assert_eq!(bridge.put(s, v(b"k"), v(&[1])), Err(BridgeError::IllegalMutation));
    assert_eq!(bridge.get(m, &v(b"k")), Ok(Some(v(&[1]))));
    assert_eq!(bridge.get(g, &v(b"k")), Ok(None));
    assert_eq!(bridge.contains(m, &v(b"k")), Ok(true));
    assert_eq!(bridge.contains(s, &v(b"k")), Ok(false));
    let it = bridge.iter(m).unwrap();
    let first = bridge.entries_next(it).unwrap().map(|e| (e.key, e.value));
    assert_eq!(first, Some((v(b"k"), v(&[1]))));
    assert!(bridge.entries_next(it).unwrap().is_none());
    let keys = bridge.keys_from(m, v(b"k")).unwrap();
    assert_eq!(bridge.keys_next(keys), Ok(Some(v(b"k"))));
    assert_eq!(bridge.keys_next(keys), Ok(None));
    let values = bridge.values_from(m, v(b"l")).unwrap();
    assert_eq!(bridge.values_next(values), Ok(None));
    let all_values = bridge.values(m).unwrap();
    assert_eq!(bridge.values_next(all_values), Ok(Some(v(&[1]))));
    let all_keys = bridge.keys(m).unwrap();
    let from = bridge.iter_from(m, v(b"")).unwrap();
    assert_eq!(bridge.keys_next(from), Err(BridgeError::TypeConfusion));
    assert_eq!(bridge.remove(m, v(b"k")), Ok(()));
    assert_eq!(bridge.keys_next(all_keys), Ok(None));
    assert_eq!(bridge.clear(m), Ok(()));
    assert_eq!(bridge.destroy(it, Kind::Iter(IterKind::Keys)), Err(BridgeError::TypeConfusion));
    assert_eq!(bridge.destroy(it, Kind::Iter(IterKind::Entries)), Ok(()));
    assert_eq!(bridge.destroy(it, Kind::Iter(IterKind::Entries)), Err(BridgeError::UseAfterFree));
    assert_eq!(bridge.destroy(m, Kind::View), Err(BridgeError::TypeConfusion));
    assert_eq!(bridge.destroy(m, Kind::Index), Ok(()));
    assert_eq!(bridge.destroy(fork, Kind::View), Ok(()));
    assert_eq!(bridge.destroy(db, Kind::Database), Ok(()));
    assert_eq!(bridge.fork(db), Err(BridgeError::UseAfterFree));
}
