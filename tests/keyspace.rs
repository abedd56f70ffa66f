use dumpstors::error::StoreError;
use dumpstors::keyspace::{read_outcome, removal_outcome, write_outcome, Keyspace};
use dumpstors::models::Record;

fn create_random_keyspace() -> Keyspace {
    let path = format!("/tmp/dumpstors-tests/{}", uuid::Uuid::new_v4());
    Keyspace::new(path, String::from("ks")).unwrap()
}

fn record(key: &[u8], value: &[u8]) -> Record {
    Record {
        key: key.to_vec(),
        value: value.to_vec(),
    }
}

fn four_records() -> Vec<Record> {
    vec![
        record(b"foo", b"bar"),
        record(b"doo", b"dar"),
        record(b"boo", b"far"),
        record(b"qoo", b"qar"),
    ]
}

#[test]
fn keyspace_get_key() {
    let mut ks = create_random_keyspace();
    ks.insert(record(b"foo", b"bar")).unwrap();
    assert_eq!(ks.get(b"foo".to_vec()).unwrap(), b"bar".to_vec());
}

#[test]
fn keyspace_get_inexistant_key() {
    let ks = create_random_keyspace();
    match ks.get(b"foo".to_vec()) {
        Err(StoreError::KeyNotFound) => assert!(true),
        _ => assert!(false, "Key should not exist"),
    };
}

#[test]
fn keyspace_insert_existing_key() {
    let mut ks = create_random_keyspace();
    ks.insert(record(b"foo", b"bar")).unwrap();
    assert_eq!(ks.get(b"foo".to_vec()).unwrap(), b"bar".to_vec());

    ks.insert(record(b"foo", b"dar")).unwrap();
    assert_eq!(ks.get(b"foo".to_vec()).unwrap(), b"dar".to_vec());
}

#[test]
fn keyspace_delete_key() {
    let mut ks = create_random_keyspace();
    ks.insert(record(b"foo", b"bar")).unwrap();
    ks.delete(b"foo".to_vec()).unwrap();

    match ks.get(b"foo".to_vec()) {
        Err(StoreError::KeyNotFound) => assert!(true),
        _ => assert!(false, "Key should not exist after being deleted"),
    };
}

#[test]
fn batch_insert_key() {
    let mut ks = create_random_keyspace();
    let records = four_records();
    ks.batch_insert(records.clone()).unwrap();

    records
        .into_iter()
        .for_each(|r| assert_eq!(ks.get(r.key).unwrap(), r.value));
}

#[test]
fn batch_delete_key() {
    let mut ks = create_random_keyspace();
    let records = four_records();
    ks.batch_insert(records.clone()).unwrap();
    ks.batch_delete(records.clone().into_iter().map(|r| r.key).collect())
        .unwrap();

    records.into_iter().for_each(|r| {
        match ks.get(r.key) {
            Err(StoreError::KeyNotFound) => assert!(true),
            _ => assert!(false, "Key should not exist after being deleted"),
        };
    });
}

#[test]
fn truncate_test() {
    let mut ks = create_random_keyspace();
    let records = four_records();
    ks.batch_insert(records.clone()).unwrap();
    ks.truncate().unwrap();

    records.into_iter().for_each(|r| {
        match ks.get(r.key) {
            Err(StoreError::KeyNotFound) => assert!(true),
            _ => assert!(false, "Key should not exist after being deleted"),
        };
    });
}

#[test]
fn keyspace_keeps_its_name() {
    let ks = create_random_keyspace();
    assert_eq!(ks.name(), "ks");
    assert_eq!(ks.name, "ks");
}

#[test]
fn delete_missing_key_is_not_found() {
    let mut ks = create_random_keyspace();
    assert_eq!(ks.delete(b"nonexistent".to_vec()), Err(StoreError::KeyNotFound));
}

#[test]
fn batch_delete_skips_missing_keys() {
    let mut ks = create_random_keyspace();
    ks.insert(record(b"foo", b"bar")).unwrap();
    ks.batch_delete(vec![b"nope".to_vec(), b"foo".to_vec()]).unwrap();
    assert_eq!(ks.get(b"foo".to_vec()), Err(StoreError::KeyNotFound));
}

#[test]
fn batch_insert_later_record_wins() {
    let mut ks = create_random_keyspace();
    ks.batch_insert(vec![record(b"k", b"one"), record(b"k", b"two")])
        .unwrap();
    assert_eq!(ks.get(b"k".to_vec()).unwrap(), b"two".to_vec());
}

#[test]
fn empty_key_and_value_are_stored() {
    let mut ks = create_random_keyspace();
    ks.insert(record(b"", b"")).unwrap();
    assert_eq!(ks.get(Vec::new()).unwrap(), Vec::<u8>::new());
}

#[test]
fn engine_outcomes_map_to_store_errors() {
    let failure = || sled::Error::Unsupported(String::from("x"));
    assert_eq!(read_outcome(Ok(Some(b"v".to_vec()))), Ok(b"v".to_vec()));
    assert_eq!(read_outcome(Ok(None)), Err(StoreError::KeyNotFound));
    assert_eq!(read_outcome(Err(failure())), Err(StoreError::Internal));
    assert_eq!(removal_outcome(Ok(Some(b"v".to_vec()))), Ok(()));
    assert_eq!(removal_outcome(Ok(None)), Err(StoreError::KeyNotFound));
    assert_eq!(removal_outcome(Err(failure())), Err(StoreError::Internal));
    assert_eq!(write_outcome(Ok(())), Ok(()));
    assert_eq!(write_outcome(Err(failure())), Err(StoreError::Internal));
    assert_eq!(StoreError::from(failure()), StoreError::Internal);
}
