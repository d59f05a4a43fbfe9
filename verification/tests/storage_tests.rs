use kvserver::error::ServerError;
use kvserver::storage::HashMapStorage;
use kvserver::types::{CollectionType, StorageElement, StorageValue, StorageVector};

const NOW: u64 = 1_000_000_000;

#[test]
fn test_new() {
    let map = HashMapStorage::new();
    assert_eq!(map.len().unwrap(), 0);
    assert_eq!(map.expiring_keys_count().unwrap(), 0);
}

#[test]
fn test_set() {
    let mut storage = HashMapStorage::new();
    let element1 = StorageElement {
        key: "key1".to_string(),
        value: StorageValue::Int(13),
        expiration: None,
    };
    let mut vector = StorageVector::new(CollectionType::Bool);
    vector.push(StorageValue::Bool(true)).unwrap();
    vector.push(StorageValue::Bool(false)).unwrap();
    let element2 = StorageElement {
        key: "key2".to_string(),
        value: StorageValue::Vector(vector),
        expiration: None,
    };
    storage.set("key1", element1).unwrap();
    storage.set("key2", element2).unwrap();

    assert_eq!(storage.len().unwrap(), 2);
    assert_eq!(storage.contains_key("key1", NOW).unwrap(), true);
    assert_eq!(storage.contains_key("key2", NOW).unwrap(), true);
    storage.get("key1", NOW).unwrap();
    storage.get("key2", NOW).unwrap();
}

#[test]
fn test_set_if_not_exists() {
    let mut storage = HashMapStorage::new();
    let element1 = StorageElement {
        key: "key1".to_string(),
        value: StorageValue::Int(13),
        expiration: None,
    };
    storage.set("key1", element1).unwrap();
    let element2 = StorageElement {
        key: "key1".to_string(),
        value: StorageValue::Bool(false),
        expiration: None,
    };
    assert_eq!(storage.set_if_not_exists("key1", element2).unwrap(), false);
    let element3 = StorageElement {
        key: "key2".to_string(),
        value: StorageValue::Int(11),
        expiration: None,
    };
    assert_eq!(storage.set_if_not_exists("key2", element3).unwrap(), true);
    assert_eq!(storage.len().unwrap(), 2);
    assert!(matches!(storage.get("key1", NOW).unwrap().value, StorageValue::Int(13)));
    assert!(matches!(storage.get("key2", NOW).unwrap().value, StorageValue::Int(11)));
}

#[test]
fn test_get() {
    let mut storage = HashMapStorage::new();
    let element1 = StorageElement {
        key: "key1".to_string(),
        value: StorageValue::Int(13),
        expiration: None,
    };
    storage.set("key1", element1).unwrap();
    assert!(matches!(storage.get("key1", NOW).unwrap().value, StorageValue::Int(13)));
    assert!(matches!(storage.get("unknown_key", NOW), Err(ServerError::KeyError(_))));
}

#[test]
fn test_get_if_exists() {
    let mut storage = HashMapStorage::new();
    let element1 = StorageElement {
        key: "key1".to_string(),
        value: StorageValue::Int(13),
        expiration: None,
    };
    storage.set("key1", element1).unwrap();
    assert!(matches!(
        storage.get_if_exists("key1", NOW).unwrap().unwrap().value,
        StorageValue::Int(13)
    ));
    assert!(matches!(storage.get_if_exists("unknown_key", NOW).unwrap(), None));
}

#[test]
fn test_contains_key() {
    let mut storage = HashMapStorage::new();
    let element1 = StorageElement {
        key: "key1".to_string(),
        value: StorageValue::Int(13),
        expiration: None,
    };
    storage.set("key1", element1).unwrap();
    assert_eq!(storage.contains_key("key1", NOW).unwrap(), true);
    assert_eq!(storage.contains_key("unknown_key", NOW).unwrap(), false);
}

#[test]
fn test_update() {
    let mut storage = HashMapStorage::new();
    let element1 = StorageElement {
        key: "key1".to_string(),
        value: StorageValue::Int(13),
        expiration: None,
    };
    storage.set("key1", element1).unwrap();
    let element2 = StorageElement {
        key: "key1".to_string(),
        value: StorageValue::Int(15),
        expiration: None,
    };
    storage.update("key1", element2, NOW).unwrap();
    assert!(matches!(storage.get("key1", NOW).unwrap().value, StorageValue::Int(15)));
}

#[test]
fn test_delete() {
    let mut storage = HashMapStorage::new();
    let element1 = StorageElement {
        key: "key1".to_string(),
        value: StorageValue::Int(13),
        expiration: None,
    };
    storage.set("key1", element1).unwrap();
    let element2 = StorageElement {
        key: "key2".to_string(),
        value: StorageValue::Int(15),
        expiration: None,
    };
    storage.set("key2", element2).unwrap();
    assert_eq!(storage.delete("key2", NOW).unwrap(), true);
    assert_eq!(storage.delete("key2", NOW).unwrap(), false);
    assert_eq!(storage.contains_key("key1", NOW).unwrap(), true);
    assert_eq!(storage.contains_key("key2", NOW).unwrap(), false);
}

#[test]
fn test_update_expiration() {
    let mut storage = HashMapStorage::new();
    let element1 = StorageElement {
        key: "key1".to_string(),
        value: StorageValue::Int(13),
        expiration: None,
    };
    storage.set("key1", element1).unwrap();
    let new_expiration = NOW + 5_000_000;
    storage.update_expiration("key1", Some(new_expiration), NOW).unwrap();
    assert!(matches!(storage.get("key1", NOW).unwrap().expiration, Some(_)));
    storage.update_expiration("key1", None, NOW).unwrap();
    assert!(matches!(storage.get("key1", NOW).unwrap().expiration, None));
    assert!(matches!(
        storage.update_expiration("bad_key", None, NOW),
        Err(ServerError::KeyError(_))
    ));
}

#[test]
fn test_expired_key() {
    let mut storage = HashMapStorage::new();
    // Setting an already expired entry is allowed here; the user API
    // prevents it.
    let element1 = StorageElement {
        key: "key1".to_string(),
        value: StorageValue::Int(13),
        expiration: Some(NOW - 1_000),
    };
    let element2 = StorageElement {
        key: "key1".to_string(),
        value: StorageValue::Int(13),
        expiration: Some(NOW + 500_000),
    };
    let new_expiration = Some(NOW + 500_000);
    storage.set("key1", element1).unwrap();
    assert!(matches!(storage.get_if_exists("key1", NOW).unwrap(), None));
    assert!(matches!(storage.update("key1", element2, NOW), Err(ServerError::KeyError(_))));
    assert!(matches!(
        storage.update_expiration("key1", new_expiration, NOW),
        Err(ServerError::KeyError(_)),
    ));
    assert_eq!(storage.len().unwrap(), 1);
    assert_eq!(storage.delete("key1", NOW).unwrap(), false);
    assert_eq!(storage.len().unwrap(), 0);
}

#[test]
fn test_expiring_keys_count_tracks_expirations() {
    let mut storage = HashMapStorage::new();
    let with_ttl = StorageElement {
        key: "a".to_string(),
        value: StorageValue::Int(1),
        expiration: Some(NOW + 10_000),
    };
    let without_ttl = StorageElement {
        key: "b".to_string(),
        value: StorageValue::Int(2),
        expiration: None,
    };
    storage.set("a", with_ttl).unwrap();
    storage.set("b", without_ttl).unwrap();
    assert_eq!(storage.expiring_keys_count().unwrap(), 1);
    // Dropping the expiration removes the key from the index.
    storage.update_expiration("a", None, NOW).unwrap();
    assert_eq!(storage.expiring_keys_count().unwrap(), 0);
    // Giving it one again puts it back.
    storage.update_expiration("a", Some(NOW + 10_000), NOW).unwrap();
    assert_eq!(storage.expiring_keys_count().unwrap(), 1);
    // Deleting the entry drops its index slot too.
    assert_eq!(storage.delete("a", NOW).unwrap(), true);
    assert_eq!(storage.expiring_keys_count().unwrap(), 0);
}

#[test]
fn test_invalidate_expired_keys_removes_an_expired_entry() {
    let mut storage = HashMapStorage::new();
    let expired = StorageElement {
        key: "old".to_string(),
        value: StorageValue::Int(1),
        expiration: Some(NOW - 1),
    };
    storage.set("old", expired).unwrap();
    assert_eq!(storage.len().unwrap(), 1);
    assert_eq!(storage.invalidate_expired_keys(NOW).unwrap(), 1);
    assert_eq!(storage.len().unwrap(), 0);
    assert_eq!(storage.expiring_keys_count().unwrap(), 0);
    // With nothing indexed, a sweep removes nothing.
    assert_eq!(storage.invalidate_expired_keys(NOW).unwrap(), 0);
}

#[test]
fn test_invalidate_keeps_live_entries() {
    let mut storage = HashMapStorage::new();
    let live = StorageElement {
        key: "fresh".to_string(),
        value: StorageValue::Int(1),
        expiration: Some(NOW + 1_000_000),
    };
    storage.set("fresh", live).unwrap();
    assert_eq!(storage.invalidate_expired_keys(NOW).unwrap(), 0);
    assert_eq!(storage.len().unwrap(), 1);
}

#[test]
fn test_check_and_expire() {
    let mut storage = HashMapStorage::new();
    let expired = StorageElement {
        key: "gone".to_string(),
        value: StorageValue::Int(1),
        expiration: Some(NOW - 1),
    };
    let live = StorageElement {
        key: "here".to_string(),
        value: StorageValue::Int(2),
        expiration: Some(NOW + 1_000_000),
    };
    storage.set("gone", expired).unwrap();
    storage.set("here", live).unwrap();
    assert_eq!(storage.check_and_expire("gone", NOW).unwrap(), true);
    assert_eq!(storage.check_and_expire("here", NOW).unwrap(), false);
    assert!(matches!(storage.check_and_expire("gone", NOW), Err(ServerError::KeyError(_))));
}
