use cosmwasm_std::testing::MockStorage;
use cosmwasm_std::Storage;
use cw_storage::errors::Error;
use cw_storage::record::Person;
use cw_storage::codec::Codec;
use cw_storage::{bucket, bucket_read};

#[test]
fn store_and_load() {
    let mut store = MockStorage::new();
    let bucket = bucket::<Person>(b"data");

    // save data
    let data = Person {
        name: b"Maria".to_vec(),
        age: 42,
    };
    bucket.save(&mut store, b"maria", &data).unwrap();

    // load it properly
    let loaded = bucket.load(&store, b"maria").unwrap();
    assert_eq!(data, loaded);
}

#[test]
fn readonly_works() {
    let mut store = MockStorage::new();
    let bucket = bucket::<Person>(b"data");

    // save data
    let data = Person {
        name: b"Maria".to_vec(),
        age: 42,
    };
    bucket.save(&mut store, b"maria", &data).unwrap();

    let reader = bucket_read::<Person>(b"data");

    // check empty data handling
    assert!(reader.load(&store, b"john").is_err());
    assert_eq!(reader.may_load(&store, b"john").unwrap(), None);

    // load it properly
    let loaded = reader.load(&store, b"maria").unwrap();
    assert_eq!(data, loaded);
}

#[test]
fn buckets_isolated() {
    let mut store = MockStorage::new();
    let bucket1 = bucket::<Person>(b"data");

    // save data
    let data = Person {
        name: b"Maria".to_vec(),
        age: 42,
    };
    bucket1.save(&mut store, b"maria", &data).unwrap();

    let bucket2 = bucket::<Person>(b"dat");

    // save data (dat, amaria) vs (data, maria)
    let data2 = Person {
        name: b"Amen".to_vec(),
        age: 67,
    };
    bucket2.save(&mut store, b"amaria", &data2).unwrap();

    // load one
    let reader = bucket_read::<Person>(b"data");
    let loaded = reader.load(&store, b"maria").unwrap();
    assert_eq!(data, loaded);
    // no cross load
    assert_eq!(None, reader.may_load(&store, b"amaria").unwrap());

    // load the other
    let reader2 = bucket_read::<Person>(b"dat");
    let loaded2 = reader2.load(&store, b"amaria").unwrap();
    assert_eq!(data2, loaded2);
    // no cross load
    assert_eq!(None, reader2.may_load(&store, b"maria").unwrap());
}

#[test]
fn update_success() {
    let mut store = MockStorage::new();
    let bucket = bucket::<Person>(b"data");

    // initial data
    let init = Person {
        name: b"Maria".to_vec(),
        age: 42,
    };
    bucket.save(&mut store, b"maria", &init).unwrap();

    // it's my birthday
    let birthday = |mut d: Person| -> Result<Person, Error> {
        d.age += 1;
        Ok(d)
    };
    let output = bucket.update(&mut store, b"maria", birthday).unwrap();
    let expected = Person {
        name: b"Maria".to_vec(),
        age: 43,
    };
    assert_eq!(output, expected);

    // load it properly
    let loaded = bucket.load(&store, b"maria").unwrap();
    assert_eq!(loaded, expected);
}

#[test]
fn update_fails_on_error() {
    let mut store = MockStorage::new();
    let bucket = bucket::<Person>(b"data");

    // initial data
    let init = Person {
        name: b"Maria".to_vec(),
        age: 42,
    };
    bucket.save(&mut store, b"maria", &init).unwrap();

    // it's my birthday
    let output = bucket.update(&mut store, b"maria", |_d: Person| -> Result<Person, Error> {
        Err(Error::Msg("cuz i feel like it".to_string()))
    });
    assert!(output.is_err());

    // load it properly
    let loaded = bucket.load(&store, b"maria").unwrap();
    assert_eq!(loaded, init);
}

#[test]
fn update_fails_on_no_data() {
    let mut store = MockStorage::new();
    let bucket = bucket::<Person>(b"data");

    // it's my birthday
    let output = bucket.update(&mut store, b"maria", |mut d: Person| -> Result<Person, Error> {
        d.age += 1;
        Ok(d)
    });
    assert!(output.is_err());

    // nothing stored
    let loaded = bucket.may_load(&store, b"maria").unwrap();
    assert_eq!(loaded, None);
}

#[test]
fn may_update_handles_none() {
    let mut store = MockStorage::new();
    let bucket = bucket::<Person>(b"data");

    // only set first time
    let val = bucket
        .may_update(&mut store, b"first", |t: Option<Person>| -> Result<Option<Person>, Error> {
            match t {
                Some(_) => Ok(None),
                None => Ok(Some(Person {
                    name: b"Maria".to_vec(),
                    age: 42,
                })),
            }
        })
        .unwrap();
    assert!(val.is_some());

    // ensure we get the data
    let loaded = bucket.load(&store, b"first").unwrap();
    assert_eq!(loaded.age, 42);
    assert_eq!(loaded.name, b"Maria".to_vec());

    // update with same function (don't change set values)
    // only set first time
    let val = bucket
        .may_update(&mut store, b"first", |t: Option<Person>| -> Result<Option<Person>, Error> {
            match t {
                Some(_) => Ok(None),
                None => Ok(Some(Person {
                    name: b"Joe".to_vec(),
                    age: 27,
                })),
            }
        })
        .unwrap();
    assert!(val.is_none());

    // ensure data was not modified
    let loaded = bucket.load(&store, b"first").unwrap();
    assert_eq!(loaded.age, 42);
    assert_eq!(loaded.name, b"Maria".to_vec());
}

#[test]
fn load_reports_not_found() {
    let store = MockStorage::new();
    let bucket = bucket_read::<Person>(b"data");
    assert_eq!(bucket.load(&store, b"maria"), Err(Error::NotFound));
}

#[test]
fn corruption_is_not_absence() {
    let mut store = MockStorage::new();
    // plant malformed bytes at exactly the flat key the bucket resolves:
    // two big-endian length bytes, the namespace, then the caller's key
    let mut flat = vec![0u8, 4];
    flat.extend_from_slice(b"data");
    flat.extend_from_slice(b"maria");
    store.set(&flat, b"x");

    let bucket = bucket_read::<Person>(b"data");
    assert_eq!(bucket.load(&store, b"maria"), Err(Error::Deserialize));
    assert_eq!(bucket.may_load(&store, b"maria"), Err(Error::Deserialize));
}

#[test]
fn codec_round_trip() {
    let data = Person {
        name: b"Maria".to_vec(),
        age: 42,
    };
    let bytes = data.to_bytes();
    let back = Person::from_bytes(bytes.as_slice()).unwrap();
    assert_eq!(back, data);
    assert!(Person::from_bytes(b"short").is_err());
}

#[test]
fn multilevel_bucket_round_trip() {
    let mut store = MockStorage::new();
    let nested = cw_storage::Bucket::<Person>::multilevel(&vec![b"app".to_vec(), b"people".to_vec()]);
    let data = Person {
        name: b"Maria".to_vec(),
        age: 42,
    };
    nested.save(&mut store, b"maria", &data).unwrap();
    let reader = cw_storage::ReadonlyBucket::<Person>::multilevel(&vec![
        b"app".to_vec(),
        b"people".to_vec(),
    ]);
    assert_eq!(reader.load(&store, b"maria").unwrap(), data);
    // a single-level bucket over the first segment alone sees nothing
    let flat = bucket_read::<Person>(b"app");
    assert_eq!(flat.may_load(&store, b"maria").unwrap(), None);
}
