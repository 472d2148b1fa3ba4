use extract_map::doc_examples::User;
use extract_map::ExtractMap;

#[test]
fn guard_with_unchanged_key_returns_the_mutated_value() {
    let mut map: ExtractMap<u64, User> = ExtractMap::new();
    map.insert(User { id: 1, name: "Cat" });
    map.insert(User { id: 2, name: "Fox" });
    let mut guard = map.get_mut(&1).unwrap();
    guard.name = "Dog";
    guard.release();
    assert_eq!(map.get(&1), Some(&User { id: 1, name: "Dog" }));
    assert_eq!(map.len(), 2);
}

#[test]
fn guard_with_changed_key_moves_the_value() {
    let mut map: ExtractMap<u64, User> = ExtractMap::new();
    map.insert(User { id: 1, name: "Cat" });
    map.insert(User { id: 2, name: "Fox" });
    let mut guard = map.get_mut(&1).unwrap();
    guard.id = 7;
    guard.name = "Dog";
    guard.release();
    assert_eq!(map.get(&1), None);
    assert_eq!(map.get(&7), Some(&User { id: 7, name: "Dog" }));
    assert_eq!(map.get(&2), Some(&User { id: 2, name: "Fox" }));
    assert_eq!(map.len(), 2);
}

#[test]
fn guard_released_onto_a_taken_key_replaces_its_value() {
    let mut map: ExtractMap<u64, User> = ExtractMap::new();
    map.insert(User { id: 1, name: "Cat" });
    map.insert(User { id: 2, name: "Fox" });
    let mut guard = map.get_mut(&1).unwrap();
    guard.id = 2;
    guard.release();
    assert_eq!(map.len(), 1);
    assert_eq!(map.get(&1), None);
    assert_eq!(map.get(&2), Some(&User { id: 2, name: "Cat" }));
}

#[test]
fn value_is_absent_while_guarded() {
    let mut map: ExtractMap<u64, User> = ExtractMap::new();
    map.insert(User { id: 1, name: "Cat" });
    map.insert(User { id: 2, name: "Fox" });
    let guard = map.get_mut(&1).unwrap();
    assert_eq!(guard.map.get(&1), None);
    assert!(!guard.map.contains_key(&1));
    assert_eq!(guard.map.len(), 1);
    assert!(guard.map.contains_key(&2));
    assert_eq!(*guard, User { id: 1, name: "Cat" });
    guard.release();
    assert_eq!(map.get(&1), Some(&User { id: 1, name: "Cat" }));
    assert!(map.contains_key(&1));
    assert_eq!(map.len(), 2);
}

#[test]
fn second_guard_for_a_guarded_key_is_refused() {
    let mut map: ExtractMap<u64, User> = ExtractMap::new();
    map.insert(User { id: 1, name: "Cat" });
    let guard = map.get_mut(&1).unwrap();
    assert!(guard.map.get_mut(&1).is_none());
    guard.release();
    assert!(map.get_mut(&1).is_some());
}

#[test]
fn get_mut_of_an_absent_key_gives_nothing() {
    let mut map: ExtractMap<u64, User> = ExtractMap::new();
    map.insert(User { id: 1, name: "Cat" });
    assert!(map.get_mut(&2).is_none());
    assert_eq!(map.len(), 1);
    assert_eq!(map.get(&1), Some(&User { id: 1, name: "Cat" }));
}

#[test]
fn a_guard_that_is_not_released_loses_its_value() {
    let mut map: ExtractMap<u64, User> = ExtractMap::new();
    map.insert(User { id: 1, name: "Cat" });
    map.insert(User { id: 2, name: "Fox" });
    let guard = map.get_mut(&1).unwrap();
    std::mem::forget(guard);
    assert_eq!(map.get(&1), None);
    assert_eq!(map.len(), 1);
    assert_eq!(map.get(&2), Some(&User { id: 2, name: "Fox" }));
}

#[test]
fn guard_hashed_stores_under_the_given_hash() {
    let mut map: ExtractMap<u64, User> = ExtractMap::new();
    let h1 = map.hash_key(&1);
    let h5 = map.hash_key(&5);
    map.insert(User { id: 1, name: "Cat" });
    assert!(map.get_mut_hashed(h1.wrapping_add(1), &1).is_none());
    let mut guard = map.get_mut_hashed(h1, &1).unwrap();
    guard.id = 5;
    guard.release_hashed(h5);
    assert_eq!(map.get(&5), Some(&User { id: 5, name: "Cat" }));
    assert_eq!(map.get(&1), None);
    assert_eq!(map.len(), 1);
}
