//! Tests of the in-memory secret map.

use keynest::error::StoreError;
use keynest::store::Store;

#[test]
fn create_new_store_works() {
    let store = Store::new();
    assert_eq!(store.len(), 0);
    assert_ne!(store.creation_date(), "");
}

#[test]
fn set_key_works() {
    let mut store = Store::new();
    store.set("A", "B").unwrap();
    assert_eq!(store.get("A").unwrap(), "B");
}

#[test]
fn store_set_existing_key_fails() {
    let mut store = Store::new();
    store.set("A", "B").unwrap();
    match store.set("A", "C") {
        Err(StoreError::KeyAlreadyExists(k)) => assert_eq!(k, "A"),
        other => panic!("expected KeyAlreadyExists, got: {other:?}"),
    }
}

#[test]
fn store_update_key_works() {
    let mut store = Store::new();
    store.set("A", "B").unwrap();
    store.update("A", "C").unwrap();
    assert_eq!(store.get("A").unwrap(), "C");
}

#[test]
fn store_update_not_existing_key_fails() {
    let mut store = Store::new();
    match store.update("A", "B") {
        Err(StoreError::KeyNotFound(k)) => assert_eq!(k, "A"),
        other => panic!("expected KeyNotFound, got: {other:?}"),
    }
}

#[test]
fn remove_key_works() {
    let mut store = Store::new();
    store.set("A", "B").unwrap();
    store.remove("A").unwrap();
    assert_eq!(store.get("A"), None);
}

#[test]
fn remove_not_existing_key_fails() {
    let mut store = Store::new();
    match store.remove("A") {
        Err(StoreError::KeyNotFound(k)) => assert_eq!(k, "A"),
        other => panic!("expected KeyNotFound, got: {other:?}"),
    }
}

#[test]
fn get_key_works() {
    let mut store = Store::new();
    store.set("A", "B").unwrap();
    assert_eq!(store.get("A").unwrap(), "B");
}

#[test]
fn get_not_existing_key_fails() {
    let store = Store::new();
    assert_eq!(store.get("A"), None);
}

#[test]
fn keys_and_entries_list_every_secret() {
    let mut store = Store::new();
    store.set("one", "1").unwrap();
    store.set("two", "2").unwrap();
    let keys = store.keys();
    assert_eq!(keys.len(), 2);
    assert!(keys.contains(&"one".to_string()));
    assert!(keys.contains(&"two".to_string()));
    let entries = store.entries();
    assert_eq!(entries.len(), 2);
    for e in &entries {
        assert!(e.key() == "one" || e.key() == "two");
        assert_ne!(e.updated(), "");
    }
}

#[test]
fn update_refreshes_only_the_value() {
    let mut store = Store::new();
    store.set("k", "old").unwrap();
    store.set("other", "x").unwrap();
    store.update("k", "new").unwrap();
    assert_eq!(store.get("k").unwrap(), "new");
    assert_eq!(store.get("other").unwrap(), "x");
    assert_eq!(store.len(), 2);
}
