use extract_map::doc_examples::User;
use extract_map::ExtractMap;
use std::hash::{BuildHasherDefault, DefaultHasher};

type FixedState = BuildHasherDefault<DefaultHasher>;

fn users(ids: &[u64], name: &'static str) -> Vec<User> {
    ids.iter().map(|id| User { id: *id, name }).collect()
}

#[test]
fn from_iter_inserts_each_value() {
    let map: ExtractMap<u64, User> = ExtractMap::from_iter(users(&[1, 2, 3], "n"));
    assert_eq!(map.len(), 3);
    for id in 1..=3u64 {
        assert_eq!(map.get(&id), Some(&User { id, name: "n" }));
    }
}

#[test]
fn from_iter_keeps_the_last_value_of_a_key() {
    let values = vec![
        User { id: 1, name: "first" },
        User { id: 2, name: "only" },
        User { id: 1, name: "last" },
    ];
    let map: ExtractMap<u64, User> = ExtractMap::from_iter(values);
    assert_eq!(map.len(), 2);
    assert_eq!(map.get(&1), Some(&User { id: 1, name: "last" }));
    assert_eq!(map.get(&2), Some(&User { id: 2, name: "only" }));
}

#[test]
fn from_iter_of_nothing_is_empty() {
    let map: ExtractMap<u64, User> = ExtractMap::from_iter(Vec::new());
    assert!(map.is_empty());
}

#[test]
fn from_iter_reserves_room_for_the_values() {
    let map: ExtractMap<u64, User> = ExtractMap::from_iter(users(&[1, 2, 3, 4, 5, 6, 7, 8, 9], "n"));
    assert!(map.capacity() >= 9);
}

#[test]
fn extend_adds_and_replaces() {
    let mut map: ExtractMap<u64, User> = ExtractMap::from_iter(users(&[1, 2], "old"));
    map.extend(users(&[2, 3], "new"));
    assert_eq!(map.len(), 3);
    assert_eq!(map.get(&1), Some(&User { id: 1, name: "old" }));
    assert_eq!(map.get(&2), Some(&User { id: 2, name: "new" }));
    assert_eq!(map.get(&3), Some(&User { id: 3, name: "new" }));
}

#[test]
fn extend_with_nothing_changes_nothing() {
    let mut map: ExtractMap<u64, User> = ExtractMap::from_iter(users(&[1, 2], "old"));
    map.extend(Vec::new());
    assert_eq!(map.len(), 2);
}

#[test]
fn clone_holds_the_same_values() {
    let mut map: ExtractMap<u64, User> = ExtractMap::from_iter(users(&[1, 2, 3], "n"));
    let copy = map.clone();
    map.remove(&1);
    map.insert(User { id: 4, name: "later" });
    assert_eq!(copy.len(), 3);
    for id in 1..=3u64 {
        assert_eq!(copy.get(&id), Some(&User { id, name: "n" }));
    }
    assert_eq!(copy.get(&4), None);
    assert_eq!(map.get(&1), None);
}

#[test]
fn clone_can_be_changed_on_its_own() {
    let map: ExtractMap<u64, User> = ExtractMap::from_iter(users(&[1, 2, 3], "n"));
    let mut copy = map.clone();
    for id in 10..200u64 {
        copy.insert(User { id, name: "more" });
    }
    copy.remove(&2);
    assert_eq!(copy.len(), 192);
    assert_eq!(map.len(), 3);
    assert_eq!(map.get(&2), Some(&User { id: 2, name: "n" }));
    assert_eq!(copy.get(&150), Some(&User { id: 150, name: "more" }));
}

#[test]
fn equals_ignores_the_order() {
    let a: ExtractMap<u64, User> = ExtractMap::from_iter(users(&[1, 2, 3], "n"));
    let b: ExtractMap<u64, User> = ExtractMap::from_iter(users(&[3, 1, 2], "n"));
    assert!(a.equals(&b));
    assert!(b.equals(&a));
}

#[test]
fn equals_ignores_the_hasher() {
    let a: ExtractMap<u64, User> = ExtractMap::from_iter(users(&[1, 2, 3], "n"));
    let mut b = ExtractMap::<u64, User>::new();
    b.extend(users(&[1, 2, 3], "n"));
    assert!(a.equals(&b));
    let c: ExtractMap<u64, User, FixedState> = ExtractMap::from_iter(users(&[1, 2], "n"));
    let d: ExtractMap<u64, User, FixedState> = ExtractMap::from_iter(users(&[2, 1], "n"));
    assert!(c.equals(&d));
}

#[test]
fn equals_sees_a_different_length() {
    let a: ExtractMap<u64, User> = ExtractMap::from_iter(users(&[1, 2, 3], "n"));
    let b: ExtractMap<u64, User> = ExtractMap::from_iter(users(&[1, 2], "n"));
    assert!(!a.equals(&b));
    assert!(!b.equals(&a));
}

#[test]
fn equals_sees_a_different_value() {
    let a: ExtractMap<u64, User> = ExtractMap::from_iter(users(&[1, 2, 3], "n"));
    let mut b: ExtractMap<u64, User> = ExtractMap::from_iter(users(&[1, 2], "n"));
    b.insert(User { id: 3, name: "m" });
    assert!(!a.equals(&b));
}

#[test]
fn equals_sees_a_different_key() {
    let a: ExtractMap<u64, User> = ExtractMap::from_iter(users(&[1, 2, 3], "n"));
    let b: ExtractMap<u64, User> = ExtractMap::from_iter(users(&[1, 2, 4], "n"));
    assert!(!a.equals(&b));
}

#[test]
fn empty_maps_are_equal() {
    let a = ExtractMap::<u64, User>::new();
    let b = ExtractMap::<u64, User>::new();
    assert!(a.equals(&b));
}

#[test]
fn contains_equal_hashed_compares_the_whole_value() {
    let map: ExtractMap<u64, User> = ExtractMap::from_iter(users(&[1], "n"));
    let hash = map.hash_key(&1);
    assert!(map.contains_equal_hashed(hash, &User { id: 1, name: "n" }));
    assert!(!map.contains_equal_hashed(hash, &User { id: 1, name: "m" }));
    assert!(!map.contains_equal_hashed(hash.wrapping_add(1), &User { id: 1, name: "n" }));
}

fn records_of(value: &serde_json::Value) -> Vec<User> {
    let items: Vec<&serde_json::Value> = match value {
        serde_json::Value::Array(items) => items.iter().collect(),
        serde_json::Value::Object(fields) => fields.values().collect(),
        _ => panic!("neither a sequence nor a map"),
    };
    items
        .into_iter()
        .map(|item| User {
            id: item.get("id").and_then(|id| id.as_u64()).unwrap(),
            name: match item.get("name").and_then(|name| name.as_str()).unwrap() {
                "A" => "A",
                "B" => "B",
                _ => "?",
            },
        })
        .collect()
}

#[test]
fn sequence_and_map_of_records_give_equal_maps() {
    let seq_json = r#"[{"id":0,"name":"A"},{"id":1,"name":"B"}]"#;
    let map_json = r#"{"x":{"id":0,"name":"A"},"y":{"id":1,"name":"B"}}"#;
    let seq: serde_json::Value = serde_json::from_str(seq_json).unwrap();
    let map: serde_json::Value = serde_json::from_str(map_json).unwrap();
    let from_seq: ExtractMap<u64, User> = ExtractMap::from_iter(records_of(&seq));
    let from_map: ExtractMap<u64, User> = ExtractMap::from_iter(records_of(&map));
    assert!(from_seq.equals(&from_map));
    assert!(from_map.equals(&from_seq));
    assert_eq!(from_map.len(), 2);
    assert_eq!(from_map.get(&0), Some(&User { id: 0, name: "A" }));
    assert_eq!(from_map.get(&1), Some(&User { id: 1, name: "B" }));
}

#[test]
fn equals_hashed_looks_under_the_given_hashes() {
    let mut a = ExtractMap::<u64, User>::with_capacity(0);
    a.insert_hashed(1, User { id: 1, name: "Cat" });
    a.insert_hashed(2, User { id: 2, name: "Fox" });
    let mut b = ExtractMap::<u64, User>::with_capacity(64);
    b.insert_hashed(20, User { id: 2, name: "Fox" });
    b.insert_hashed(10, User { id: 1, name: "Cat" });
    assert!(a.equals_hashed(&b, &vec![10, 20]));
    assert!(b.equals_hashed(&a, &vec![2, 1]));
    assert!(!a.equals_hashed(&b, &vec![20, 10]));
    assert!(!a.equals_hashed(&b, &vec![10]));
    assert!(!a.equals_hashed(&b, &vec![10, 20, 30]));
    let mut c = ExtractMap::<u64, User>::new();
    c.insert_hashed(10, User { id: 1, name: "Dog" });
    c.insert_hashed(20, User { id: 2, name: "Fox" });
    assert!(!a.equals_hashed(&c, &vec![10, 20]));
}

#[test]
fn maps_with_one_key_and_different_values_are_unequal() {
    let a: ExtractMap<u64, User> = ExtractMap::from_iter(vec![User { id: 1, name: "Cat" }]);
    let b: ExtractMap<u64, User> = ExtractMap::from_iter(vec![User { id: 1, name: "Dog" }]);
    assert!(!a.equals(&b));
    assert!(!b.equals(&a));
}

#[test]
fn maps_filled_in_another_order_with_other_room_are_equal() {
    let mut a = ExtractMap::<u64, User>::with_capacity(0);
    a.insert(User { id: 1, name: "Cat" });
    a.insert(User { id: 2, name: "Fox" });
    let mut b = ExtractMap::<u64, User>::with_capacity(64);
    b.insert(User { id: 2, name: "Fox" });
    b.insert(User { id: 1, name: "Cat" });
    assert!(a.equals(&b));
    assert!(b.equals(&a));
}
