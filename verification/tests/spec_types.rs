use blvm_primitives::{SpecHashMap, SpecVec};
use std::collections::HashMap;

#[test]
fn test_spec_hashmap_basic() {
    let mut map: SpecHashMap<String, i32> = SpecHashMap::new();
    assert_eq!(map.len(), 0);
    assert!(map.is_empty());

    let old = map.insert("key".to_string(), 42);
    assert_eq!(old, None);
    assert_eq!(map.len(), 1);
    assert!(!map.is_empty());

    assert_eq!(map.get(&"key".to_string()), Some(&42));

    let removed = map.remove(&"key".to_string());
    assert_eq!(removed, Some(42));
    assert_eq!(map.len(), 0);
}

#[test]
fn test_spec_hashmap_from_hashmap() {
    let mut std_map = HashMap::new();
    std_map.insert("a".to_string(), 1);
    std_map.insert("b".to_string(), 2);

    let spec_map: SpecHashMap<String, i32> = SpecHashMap::from(std_map);
    assert_eq!(spec_map.len(), 2);
    assert_eq!(spec_map.get(&"a".to_string()), Some(&1));
    assert_eq!(spec_map.get(&"b".to_string()), Some(&2));
}

#[test]
fn test_spec_hashmap_deref() {
    let mut spec_map: SpecHashMap<u32, String> = SpecHashMap::new();
    spec_map.insert(1, "one".to_string());

    // Can use HashMap methods via Deref
    assert!(spec_map.contains_key(&1));
    assert!(!spec_map.contains_key(&2));
}

#[test]
fn spec_hashmap_insert_replaces_and_remove_missing() {
    let mut map: SpecHashMap<u64, &str> = SpecHashMap::default();
    assert_eq!(map.insert(7, "a"), None);
    assert_eq!(map.insert(7, "b"), Some("a"));
    assert_eq!(map.get(&7), Some(&"b"));
    assert_eq!(map.len(), 1);
    assert_eq!(map.remove(&8), None);
    assert_eq!(map.get(&8), None);
    let back: HashMap<u64, &str> = map.into();
    assert_eq!(back.len(), 1);
}

#[test]
fn test_spec_vec_basic() {
    let mut vec: SpecVec<u8> = SpecVec::new();
    assert_eq!(vec.len(), 0);
    assert!(vec.is_empty());

    vec.push(42);
    assert_eq!(vec.len(), 1);
    assert!(!vec.is_empty());
    assert_eq!(vec[0], 42);

    let popped = vec.pop();
    assert_eq!(popped, Some(42));
    assert_eq!(vec.len(), 0);
}

#[test]
fn test_spec_vec_from_vec() {
    let std_vec = vec![1, 2, 3];
    let spec_vec: SpecVec<i32> = SpecVec::from(std_vec);
    assert_eq!(spec_vec.len(), 3);
    assert_eq!(spec_vec[0], 1);
    assert_eq!(spec_vec[1], 2);
    assert_eq!(spec_vec[2], 3);
}

#[test]
fn test_spec_vec_deref() {
    let mut spec_vec: SpecVec<String> = SpecVec::new();
    spec_vec.push("hello".to_string());

    // Can use Vec methods via Deref
    assert_eq!(spec_vec.len(), 1);
    spec_vec.clear();
    assert_eq!(spec_vec.len(), 0);
}

#[test]
fn spec_vec_pop_empty_and_conversions() {
    let mut v: SpecVec<u32> = SpecVec::default();
    assert_eq!(v.pop(), None);
    v.push(1);
    v.push(2);
    assert_eq!(v.as_ref(), &[1, 2]);
    let back: Vec<u32> = v.clone().into();
    assert_eq!(back, vec![1, 2]);
    let collected: Vec<u32> = v.into_iter().collect();
    assert_eq!(collected, vec![1, 2]);
}
