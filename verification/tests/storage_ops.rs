use studio_datastore::store::{
    storage_all, storage_delete, storage_exists, storage_get, storage_get_string, storage_list,
    storage_put, storage_put_string, Storage,
};

#[test]
fn round_trip_bytes() {
    let mut store = Storage::new();
    let value = vec![0u8, 1, 2, 255, 128, 7];
    storage_put(&mut store, "notes", "entry", value.clone()).unwrap();
    let got = storage_get(&mut store, "notes", "entry").unwrap();
    assert_eq!(got, Some(value));
}

#[test]
fn round_trip_string() {
    let mut store = Storage::new();
    storage_put_string(&mut store, "notes", "greeting", String::from("hello world")).unwrap();
    let got = storage_get_string(&mut store, "notes", "greeting").unwrap();
    assert_eq!(got, Some(String::from("hello world")));
}

#[test]
fn round_trip_string_multibyte() {
    let mut store = Storage::new();
    let text = String::from("h\u{e9}llo w\u{f6}rld \u{2713} \u{1f600}");
    storage_put_string(&mut store, "notes", "greeting", text.clone()).unwrap();
    let got = storage_get_string(&mut store, "notes", "greeting").unwrap();
    assert_eq!(got, Some(text));
}

#[test]
fn get_string_decodes_stored_bytes() {
    // Bytes written by the binary variant come back through the string
    // variant decoded, not verbatim: multi-byte characters shrink.
    let mut store = Storage::new();
    let text = "caf\u{e9}";
    let bytes = text.as_bytes().to_vec();
    assert_eq!(bytes.len(), 5);
    storage_put(&mut store, "notes", "word", bytes).unwrap();
    let got = storage_get_string(&mut store, "notes", "word").unwrap().unwrap();
    assert_eq!(got.chars().count(), 4);
    assert_eq!(got, String::from(text));
}

#[test]
fn get_string_rejects_invalid_utf8() {
    let mut store = Storage::new();
    storage_put(&mut store, "notes", "blob", vec![0xff, 0xfe, 0x41]).unwrap();
    let err = storage_get_string(&mut store, "notes", "blob").unwrap_err();
    assert_eq!(err.code, Some(String::from("DECODE")));
    assert_eq!(err.message, String::from("value is not valid utf-8"));
}

#[test]
fn overwrite_returns_last_value() {
    let mut store = Storage::new();
    storage_put(&mut store, "notes", "entry", vec![1, 2, 3]).unwrap();
    storage_put(&mut store, "notes", "entry", vec![9, 9]).unwrap();
    let got = storage_get(&mut store, "notes", "entry").unwrap();
    assert_eq!(got, Some(vec![9, 9]));
}

#[test]
fn get_absent_key_is_none_not_error() {
    let mut store = Storage::new();
    // Datastore never touched at all.
    assert_eq!(storage_get(&mut store, "fresh", "missing").unwrap(), None);
    // Datastore exists, key never written.
    storage_put(&mut store, "notes", "present", vec![1]).unwrap();
    assert_eq!(storage_get(&mut store, "notes", "missing").unwrap(), None);
    assert_eq!(storage_get_string(&mut store, "notes", "missing").unwrap(), None);
}

#[test]
fn delete_is_idempotent() {
    let mut store = Storage::new();
    // Deleting a key that never existed succeeds.
    storage_delete(&mut store, "notes", "missing").unwrap();
    // Twice in a row, both succeed.
    storage_put(&mut store, "notes", "entry", vec![1]).unwrap();
    storage_delete(&mut store, "notes", "entry").unwrap();
    storage_delete(&mut store, "notes", "entry").unwrap();
    assert_eq!(storage_get(&mut store, "notes", "entry").unwrap(), None);
}

#[test]
fn exists_lifecycle() {
    let mut store = Storage::new();
    assert!(!storage_exists(&mut store, "notes", "entry").unwrap());
    storage_put(&mut store, "notes", "entry", vec![42]).unwrap();
    assert!(storage_exists(&mut store, "notes", "entry").unwrap());
    storage_delete(&mut store, "notes", "entry").unwrap();
    assert!(!storage_exists(&mut store, "notes", "entry").unwrap());
}

#[test]
fn list_returns_each_key_once() {
    let mut store = Storage::new();
    storage_put(&mut store, "notes", "a", vec![1]).unwrap();
    storage_put(&mut store, "notes", "b", vec![2]).unwrap();
    storage_put(&mut store, "notes", "c", vec![3]).unwrap();
    // Writing a key twice must not duplicate it.
    storage_put(&mut store, "notes", "b", vec![4]).unwrap();
    let mut keys = storage_list(&mut store, "notes").unwrap();
    keys.sort();
    assert_eq!(keys, vec![String::from("a"), String::from("b"), String::from("c")]);
}

#[test]
fn all_returns_every_value_once() {
    let mut store = Storage::new();
    storage_put(&mut store, "notes", "a", vec![1]).unwrap();
    storage_put(&mut store, "notes", "b", vec![2, 2]).unwrap();
    storage_put(&mut store, "notes", "c", vec![3, 3, 3]).unwrap();
    let mut vals = storage_all(&mut store, "notes").unwrap();
    vals.sort();
    assert_eq!(vals, vec![vec![1], vec![2, 2], vec![3, 3, 3]]);
}

#[test]
fn enumeration_ignores_other_datastores() {
    let mut store = Storage::new();
    storage_put(&mut store, "notes", "a", vec![1]).unwrap();
    storage_put(&mut store, "drafts", "b", vec![2]).unwrap();
    let keys = storage_list(&mut store, "notes").unwrap();
    assert_eq!(keys, vec![String::from("a")]);
    let vals = storage_all(&mut store, "drafts").unwrap();
    assert_eq!(vals, vec![vec![2]]);
}

#[test]
fn empty_datastore_lists_nothing() {
    let mut store = Storage::new();
    let keys = storage_list(&mut store, "never-written").unwrap();
    assert!(keys.is_empty());
    let vals = storage_all(&mut store, "never-written").unwrap();
    assert!(vals.is_empty());
}

#[test]
fn datastores_are_independent_namespaces() {
    let mut store = Storage::new();
    storage_put(&mut store, "one", "key", vec![1]).unwrap();
    storage_put(&mut store, "two", "key", vec![2]).unwrap();
    assert_eq!(storage_get(&mut store, "one", "key").unwrap(), Some(vec![1]));
    assert_eq!(storage_get(&mut store, "two", "key").unwrap(), Some(vec![2]));
    storage_delete(&mut store, "one", "key").unwrap();
    assert_eq!(storage_get(&mut store, "one", "key").unwrap(), None);
    assert_eq!(storage_get(&mut store, "two", "key").unwrap(), Some(vec![2]));
}

#[test]
fn empty_value_is_stored() {
    let mut store = Storage::new();
    storage_put(&mut store, "notes", "empty", Vec::new()).unwrap();
    assert!(storage_exists(&mut store, "notes", "empty").unwrap());
    assert_eq!(storage_get(&mut store, "notes", "empty").unwrap(), Some(Vec::new()));
    assert_eq!(
        storage_get_string(&mut store, "notes", "empty").unwrap(),
        Some(String::new())
    );
}
