use cosmwasm_std::testing::MockStorage;
use cw_storage::prefix::{length_prefix, multi_length_prefix};
use cw_storage::{prefixed, prefixed_ro, PrefixedStorage, ReadonlyPrefixedStorage};

#[test]
fn prefix_safe() {
    let mut storage = MockStorage::new();

    // write through a read-write view
    let foo = PrefixedStorage::new(b"foo");
    foo.set(&mut storage, b"bar", b"gotcha");
    assert_eq!(Some(b"gotcha".to_vec()), foo.get(&storage, b"bar"));

    // try readonly correctly
    let rfoo = ReadonlyPrefixedStorage::new(b"foo");
    assert_eq!(Some(b"gotcha".to_vec()), rfoo.get(&storage, b"bar"));

    // no collisions with other prefixes
    let fo = ReadonlyPrefixedStorage::new(b"fo");
    assert_eq!(None, fo.get(&storage, b"obar"));
}

#[test]
fn multi_level() {
    let mut storage = MockStorage::new();

    // set with nested
    let foo = PrefixedStorage::new(b"foo");
    let bar = foo.nested(b"bar");
    bar.set(&mut storage, b"baz", b"winner");

    // we can nest them the same encoding with one operation
    let loader = ReadonlyPrefixedStorage::multilevel(&vec![b"foo".to_vec(), b"bar".to_vec()]);
    assert_eq!(Some(b"winner".to_vec()), loader.get(&storage, b"baz"));

    // set with multilevel
    let foobar = PrefixedStorage::multilevel(&vec![b"foo".to_vec(), b"bar".to_vec()]);
    foobar.set(&mut storage, b"second", b"time");

    let a = ReadonlyPrefixedStorage::new(b"foo");
    let b = a.nested(b"bar");
    assert_eq!(Some(b"time".to_vec()), b.get(&storage, b"second"));
}

// demo
#[test]
fn foo() {
    let mut store = MockStorage::new();

    let foos = prefixed(b"foo");
    foos.set(&mut store, b"one", b"foo");

    let bars = prefixed(b"bar");
    bars.set(&mut store, b"one", b"bar");

    let read_foo = prefixed_ro(b"foo");
    assert_eq!(b"foo".to_vec(), read_foo.get(&store, b"one").unwrap());

    let read_bar = prefixed_ro(b"bar");
    assert_eq!(b"bar".to_vec(), read_bar.get(&store, b"one").unwrap());
}

#[test]
fn length_prefix_bytes_exact() {
    // one length byte, then the raw namespace bytes
    assert_eq!(length_prefix(b"foo"), vec![3u8, b'f', b'o', b'o']);
    assert_eq!(length_prefix(b"fo"), vec![2u8, b'f', b'o']);
    // a zero-length segment is legal and encodes as a single zero byte
    assert_eq!(length_prefix(b""), vec![0u8]);

    // the length byte keeps ("foo", "bar") and ("fo", "obar") apart even
    // though the raw concatenations agree
    let mut a = length_prefix(b"foo");
    a.extend_from_slice(b"bar");
    let mut b = length_prefix(b"fo");
    b.extend_from_slice(b"obar");
    assert_ne!(a, b);
    assert_eq!(a, vec![3u8, b'f', b'o', b'o', b'b', b'a', b'r']);
    assert_eq!(b, vec![2u8, b'f', b'o', b'o', b'b', b'a', b'r']);
}

#[test]
fn nesting_matches_multilevel() {
    // encoding segment by segment equals encoding the chain at once
    let chain = multi_length_prefix(&vec![b"foo".to_vec(), b"bar".to_vec()]);
    let mut one_by_one = length_prefix(b"foo");
    one_by_one.extend_from_slice(length_prefix(b"bar").as_slice());
    assert_eq!(chain, one_by_one);
    assert_eq!(chain, vec![3u8, b'f', b'o', b'o', 3u8, b'b', b'a', b'r']);
}
