use kvserver::error::ServerError;
use kvserver::types::{
    validate_key,
    validate_value,
    CollectionType,
    KeyType,
    StorageMap,
    StorageValue,
    StorageVector,
};

#[test]
fn test_storage_value_equality() {
    let x = StorageValue::Int(5);
    let y = StorageValue::Int(6);
    let z = StorageValue::Int(5);

    assert_eq!(x == y, false);
    assert_eq!(x == z, true);
}

#[test]
fn test_float_equality_is_bit_identity() {
    // Texts that parse to the same bits compare equal, even when they
    // differ as strings.
    let a = StorageValue::Float("1.5".to_string());
    let b = StorageValue::Float("1.50".to_string());
    assert_eq!(a == b, true);
    let c = StorageValue::Float("2.5".to_string());
    assert_eq!(a == c, false);
    // Null, vectors and maps stay unequal even to themselves.
    assert_eq!(StorageValue::Null == StorageValue::Null, false);
}

#[test]
fn test_validate_key_with_good_inputs() {
    assert!(matches!(validate_key(&StorageValue::Int(0), KeyType::Int), Ok(())));
    assert!(matches!(
        validate_key(&StorageValue::String(String::from("str")), KeyType::String),
        Ok(()),
    ));
}

#[test]
fn test_validate_key_with_mismatched_inputs() {
    assert!(matches!(validate_key(&StorageValue::Int(0), KeyType::String), Err(_)));
    assert!(matches!(validate_key(&StorageValue::Bool(false), KeyType::String), Err(_)));
    assert!(matches!(
        validate_key(&StorageValue::String(String::from("str")), KeyType::Int),
        Err(_),
    ));
}

#[test]
fn test_validate_value_with_good_inputs() {
    assert!(matches!(validate_value(&StorageValue::Int(0), CollectionType::Int), Ok(())));
    assert!(matches!(
        validate_value(&StorageValue::Float("0.".to_string()), CollectionType::Float),
        Ok(()),
    ));
    assert!(matches!(
        validate_value(&StorageValue::String("str".to_string()), CollectionType::String),
        Ok(())
    ));
    assert!(matches!(validate_value(&StorageValue::Bool(true), CollectionType::Bool), Ok(())));
}

#[test]
fn test_validate_value_with_bad_inputs() {
    assert!(matches!(validate_value(&StorageValue::Int(0), CollectionType::Bool), Err(_)));
    assert!(matches!(
        validate_value(&StorageValue::Float("0.".to_string()), CollectionType::Int),
        Err(_)
    ));
    assert!(matches!(
        validate_value(&StorageValue::String("str".to_string()), CollectionType::Float),
        Err(_)
    ));
    assert!(matches!(
        validate_value(&StorageValue::Bool(true), CollectionType::String),
        Err(_)
    ));
}

#[test]
fn test_vector_new() {
    let vector = StorageVector::new(CollectionType::Int);
    assert!(matches!(vector.collection_type, CollectionType::Int));
    assert_eq!(vector.vector.len(), 0);
}

#[test]
fn test_vector_push() {
    let mut vector = StorageVector::new(CollectionType::Bool);
    vector.push(StorageValue::Bool(true)).unwrap();
    vector.push(StorageValue::Bool(false)).unwrap();
    assert_eq!(vector.vector.len(), 2);
}

#[test]
fn test_vector_push_with_bad_value() {
    let mut vector = StorageVector::new(CollectionType::Bool);
    let result = vector.push(StorageValue::Int(0));
    assert!(matches!(result, Err(_)));
}

#[test]
fn test_vector_len() {
    let mut vector = StorageVector::new(CollectionType::Int);
    assert_eq!(vector.len(), 0);
    vector.push(StorageValue::Int(0)).unwrap();
    assert_eq!(vector.len(), 1);
}

#[test]
fn test_vector_pop() {
    let mut vector = StorageVector::new(CollectionType::Int);
    vector.push(StorageValue::Int(5)).unwrap();
    vector.push(StorageValue::Int(8)).unwrap();
    assert_eq!(vector.len(), 2);
    assert!(matches!(vector.pop(), Some(StorageValue::Int(8))));
    assert!(matches!(vector.pop(), Some(StorageValue::Int(5))));
    assert!(matches!(vector.pop(), None));
}

#[test]
fn test_vector_get() {
    let mut vector = StorageVector::new(CollectionType::String);
    vector.push(StorageValue::String("hello".to_string())).unwrap();
    vector.push(StorageValue::String("hi".to_string())).unwrap();
    assert!(matches!(vector.get(0).unwrap(), StorageValue::String(s) if s == "hello"));
    assert!(matches!(vector.get(1).unwrap(), StorageValue::String(s) if s == "hi"));
    assert!(matches!(vector.get(2), Err(ServerError::IndexError(_))));
}

#[test]
fn test_vector_set() {
    let mut vector = StorageVector::new(CollectionType::Int);
    vector.push(StorageValue::Int(1)).unwrap();
    vector.push(StorageValue::Int(4)).unwrap();
    vector.push(StorageValue::Int(3)).unwrap();

    vector.set(1, StorageValue::Int(8)).unwrap();
    assert!(matches!(vector.get(0).unwrap(), StorageValue::Int(1)));
    assert!(matches!(vector.get(1).unwrap(), StorageValue::Int(8)));
    assert!(matches!(vector.get(2).unwrap(), StorageValue::Int(3)));
    assert!(matches!(vector.get(3), Err(ServerError::IndexError(_))));
}

#[test]
fn test_map_new() {
    let map = StorageMap::new(KeyType::Int, CollectionType::Float);
    assert_eq!(map.entries.len(), 0);
    assert!(matches!(map.key_type, KeyType::Int));
    assert!(matches!(map.collection_type, CollectionType::Float));
}

#[test]
fn test_map_set() {
    let mut map = StorageMap::new(KeyType::Int, CollectionType::Bool);
    map.set(StorageValue::Int(5), StorageValue::Bool(true)).unwrap();
    assert_eq!(map.entries.len(), 1);
    assert!(matches!(map.get(&StorageValue::Int(5)).unwrap(), StorageValue::Bool(true)));
}

#[test]
fn test_map_get() {
    let mut map = StorageMap::new(KeyType::String, CollectionType::String);
    map.set(
        StorageValue::String("key".to_string()),
        StorageValue::String("value".to_string()),
    ).unwrap();
    assert!(matches!(
        map.get(&StorageValue::String("key".to_string())).unwrap(),
        StorageValue::String(s) if s == "value",
    ));
    assert!(matches!(
        map.get(&StorageValue::String("key2".to_string())),
        Err(ServerError::IndexError(_)),
    ));
}

#[test]
fn test_map_len() {
    let mut map = StorageMap::new(KeyType::Int, CollectionType::Bool);
    map.set(StorageValue::Int(5), StorageValue::Bool(true)).unwrap();
    assert_eq!(map.len(), 1);
    map.set(StorageValue::Int(55), StorageValue::Bool(true)).unwrap();
    assert_eq!(map.len(), 2);
}

#[test]
fn test_map_contains_key() {
    let mut map = StorageMap::new(KeyType::String, CollectionType::Float);
    map.set(
        StorageValue::String("key".to_string()),
        StorageValue::Float("1.5".to_string()),
    ).unwrap();
    assert_eq!(map.contains_key(&StorageValue::String("key".to_string())).unwrap(), true);
    assert_eq!(map.contains_key(&StorageValue::String("key2".to_string())).unwrap(), false);
    assert!(matches!(map.contains_key(&StorageValue::Int(0)), Err(ServerError::TypeError(_))));
}

#[test]
fn test_map_delete() {
    let mut map = StorageMap::new(KeyType::String, CollectionType::Float);
    map.set(
        StorageValue::String("key".to_string()),
        StorageValue::Float("1.5".to_string()),
    ).unwrap();
    assert_eq!(map.delete(&StorageValue::String("key".to_string())).unwrap(), true);
    assert_eq!(map.delete(&StorageValue::String("key".to_string())).unwrap(), false);
    assert!(matches!(map.delete(&StorageValue::Int(0)), Err(ServerError::TypeError(_))));
}

#[test]
fn test_map_set_replaces_existing_value() {
    let mut map = StorageMap::new(KeyType::Int, CollectionType::Int);
    map.set(StorageValue::Int(1), StorageValue::Int(10)).unwrap();
    map.set(StorageValue::Int(1), StorageValue::Int(20)).unwrap();
    assert_eq!(map.len(), 1);
    assert!(matches!(map.get(&StorageValue::Int(1)).unwrap(), StorageValue::Int(20)));
}
