use studio_datastore::names::validate_name;
use studio_datastore::store::{
    storage_all, storage_delete, storage_exists, storage_get, storage_get_string, storage_list,
    storage_put, storage_put_string, Storage,
};

#[test]
fn charset_rule() {
    assert!(validate_name("notes"));
    assert!(validate_name("a"));
    assert!(validate_name("-"));
    assert!(validate_name("my-long-datastore-name"));
    assert!(!validate_name(""));
    assert!(!validate_name("Notes"));
    assert!(!validate_name("a_b"));
    assert!(!validate_name("a.b"));
    assert!(!validate_name("a/b"));
    assert!(!validate_name("a b"));
    assert!(!validate_name("a1"));
    assert!(!validate_name("../escape"));
    assert!(!validate_name("caf\u{e9}"));
}

#[test]
fn invalid_datastore_name_fails_every_operation() {
    let mut store = Storage::new();
    let e = storage_list(&mut store, "Bad").unwrap_err();
    assert_eq!(e.code, Some(String::from("INVALID_NAME")));
    assert_eq!(e.message, String::from("datastore (Bad) contains invalid characters"));
    assert!(storage_all(&mut store, "Bad").is_err());
    assert!(storage_get(&mut store, "Bad", "key").is_err());
    assert!(storage_get_string(&mut store, "Bad", "key").is_err());
    assert!(storage_put(&mut store, "Bad", "key", vec![1]).is_err());
    assert!(storage_put_string(&mut store, "Bad", "key", String::from("x")).is_err());
    assert!(storage_delete(&mut store, "Bad", "key").is_err());
    assert!(storage_exists(&mut store, "Bad", "key").is_err());
}

#[test]
fn invalid_key_name_fails_every_keyed_operation() {
    let mut store = Storage::new();
    let e = storage_get(&mut store, "notes", "Bad Key").unwrap_err();
    assert_eq!(e.code, Some(String::from("INVALID_KEY")));
    assert_eq!(e.message, String::from("key (Bad Key) contains invalid characters"));
    assert!(storage_get_string(&mut store, "notes", "Bad Key").is_err());
    assert!(storage_put(&mut store, "notes", "Bad Key", vec![1]).is_err());
    assert!(storage_put_string(&mut store, "notes", "Bad Key", String::from("x")).is_err());
    assert!(storage_delete(&mut store, "notes", "Bad Key").is_err());
    assert!(storage_exists(&mut store, "notes", "Bad Key").is_err());
}

#[test]
fn key_is_checked_before_datastore() {
    // Both names invalid: the key's error is the one reported.
    let mut store = Storage::new();
    let e = storage_get(&mut store, "Bad", "Worse").unwrap_err();
    assert_eq!(e.code, Some(String::from("INVALID_KEY")));
}

#[test]
fn failed_validation_changes_nothing() {
    let mut store = Storage::new();
    storage_put(&mut store, "Bad", "key", vec![1]).unwrap_err();
    storage_put(&mut store, "notes", "Bad Key", vec![1]).unwrap_err();
    // Neither write landed anywhere, and the invalid access created no
    // datastore: everything still reads as absent.
    assert_eq!(storage_get(&mut store, "notes", "key").unwrap(), None);
    assert!(storage_list(&mut store, "notes").unwrap().is_empty());
}

#[test]
fn empty_names_are_rejected() {
    let mut store = Storage::new();
    let e = storage_list(&mut store, "").unwrap_err();
    assert_eq!(e.code, Some(String::from("INVALID_NAME")));
    let e = storage_put(&mut store, "notes", "", vec![1]).unwrap_err();
    assert_eq!(e.code, Some(String::from("INVALID_KEY")));
}
