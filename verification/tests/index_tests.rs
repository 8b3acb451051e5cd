use cosmwasm_std::testing::MockStorage;
use cw_storage::record::Person;
use cw_storage::codec::Codec;
use cw_storage::{index, load_keys, write_index, IndexEntry};

#[test]
fn build_index() {
    let idx = index(b"foo", |p: &Person| p.age.to_be_bytes().to_vec());

    let expected = vec![0u8, 3, b'f', b'o', b'o', 0, 0, 0, 127];
    let trial = idx.calc_key(&Person {
        name: b"Fred".to_vec(),
        age: 127,
    });
    assert_eq!(trial, expected);
}

#[test]
fn index_add_and_move() {
    let mut store = MockStorage::new();
    let idx = index(b"age", |p: &Person| p.age.to_be_bytes().to_vec());

    let fred = Person {
        name: b"Fred".to_vec(),
        age: 127,
    };
    // first write: the entry at the new index value holds the key exactly once
    write_index(&mut store, &idx, b"fred", None, &fred).unwrap();
    let key_127 = idx.calc_key(&fred);
    let entry = load_keys(&store, key_127.as_slice()).unwrap().unwrap();
    assert_eq!(entry.refs, vec![b"fred".to_vec()]);

    // moving the record to another index value removes it from the old entry
    // and records it exactly once under the new one
    let older = Person {
        name: b"Fred".to_vec(),
        age: 128,
    };
    write_index(&mut store, &idx, b"fred", Some(&fred), &older).unwrap();
    let emptied = load_keys(&store, key_127.as_slice()).unwrap().unwrap();
    assert_eq!(emptied.refs, Vec::<Vec<u8>>::new());
    let key_128 = idx.calc_key(&older);
    let moved = load_keys(&store, key_128.as_slice()).unwrap().unwrap();
    assert_eq!(moved.refs, vec![b"fred".to_vec()]);
}

#[test]
fn index_unchanged_value_is_noop() {
    let mut store = MockStorage::new();
    let idx = index(b"age", |p: &Person| p.age.to_be_bytes().to_vec());

    let fred = Person {
        name: b"Fred".to_vec(),
        age: 127,
    };
    write_index(&mut store, &idx, b"fred", None, &fred).unwrap();

    // an update that keeps the index value must not touch the entry:
    // in particular it must not append the key a second time
    let renamed = Person {
        name: b"Freddy".to_vec(),
        age: 127,
    };
    write_index(&mut store, &idx, b"fred", Some(&fred), &renamed).unwrap();
    let key = idx.calc_key(&fred);
    let entry = load_keys(&store, key.as_slice()).unwrap().unwrap();
    assert_eq!(entry.refs, vec![b"fred".to_vec()]);
}

#[test]
fn absent_entry_is_missing_on_lookup() {
    let store = MockStorage::new();
    assert_eq!(load_keys(&store, b"nothing").unwrap(), None);
}

#[test]
fn entry_codec_rejects_garbage() {
    // no marker byte
    assert!(IndexEntry::from_bytes(b"").is_err());
    assert!(IndexEntry::from_bytes(b"x").is_err());
    // marker but a truncated length prefix
    assert!(IndexEntry::from_bytes(&[1u8, 0, 0, 0]).is_err());
    // the empty entry round-trips
    let empty = IndexEntry { refs: Vec::new() };
    let bytes = empty.to_bytes();
    let back = IndexEntry::from_bytes(bytes.as_slice()).unwrap();
    assert_eq!(back.refs, Vec::<Vec<u8>>::new());
}

#[test]
fn shared_index_value_keeps_both_keys() {
    let mut store = MockStorage::new();
    let idx = index(b"age", |p: &Person| p.age.to_be_bytes().to_vec());

    let fred = Person {
        name: b"Fred".to_vec(),
        age: 42,
    };
    let maria = Person {
        name: b"Maria".to_vec(),
        age: 42,
    };
    write_index(&mut store, &idx, b"fred", None, &fred).unwrap();
    write_index(&mut store, &idx, b"maria", None, &maria).unwrap();
    let key = idx.calc_key(&fred);
    let entry = load_keys(&store, key.as_slice()).unwrap().unwrap();
    assert_eq!(entry.refs, vec![b"fred".to_vec(), b"maria".to_vec()]);

    // moving one key out leaves the other in place
    let older = Person {
        name: b"Fred".to_vec(),
        age: 43,
    };
    write_index(&mut store, &idx, b"fred", Some(&fred), &older).unwrap();
    let entry = load_keys(&store, key.as_slice()).unwrap().unwrap();
    assert_eq!(entry.refs, vec![b"maria".to_vec()]);
}

#[test]
fn remove_from_absent_entry_is_noop() {
    let mut store = MockStorage::new();
    // removing a key where no entry exists succeeds and writes nothing
    cw_storage::remove_key(&mut store, b"nowhere", b"fred").unwrap();
    assert_eq!(load_keys(&store, b"nowhere").unwrap(), None);
}
