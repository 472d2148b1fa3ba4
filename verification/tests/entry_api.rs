use extract_map::doc_examples::User;
use extract_map::entry::Entry;
use extract_map::ExtractMap;

#[test]
fn and_modify_changes_the_value_in_place() {
    let mut map: ExtractMap<u64, User> = ExtractMap::new();
    map.insert(User { id: 1, name: "Cat" });
    map.insert(User { id: 2, name: "Fox" });
    map.entry(&1).and_modify(|v| v.name = "Dog");
    assert_eq!(map.get(&1), Some(&User { id: 1, name: "Dog" }));
    assert_eq!(map.len(), 2);
    assert_eq!(map.get(&2), Some(&User { id: 2, name: "Fox" }));
}

#[test]
fn and_modify_leaves_a_vacant_entry_alone() {
    let mut map: ExtractMap<u64, User> = ExtractMap::new();
    map.insert(User { id: 1, name: "Cat" });
    let entry = map.entry(&9).and_modify(|user| user.name = "Fox");
    assert!(matches!(entry, Entry::Vacant(_)));
    assert_eq!(map.len(), 1);
    assert_eq!(map.get(&9), None);
    assert_eq!(map.get(&1), Some(&User { id: 1, name: "Cat" }));
}

#[test]
fn and_modify_then_or_insert() {
    let mut map: ExtractMap<u64, User> = ExtractMap::new();
    map.entry(&1).and_modify(|user| user.name = "Fox").or_insert(User { id: 1, name: "Cat" });
    assert_eq!(map.get(&1), Some(&User { id: 1, name: "Cat" }));
    map.entry(&1).and_modify(|user| user.name = "Fox").or_insert(User { id: 1, name: "Cat" });
    assert_eq!(map.get(&1), Some(&User { id: 1, name: "Fox" }));
    assert_eq!(map.len(), 1);
}

#[test]
fn entry_insert_replaces_the_value() {
    let mut map: ExtractMap<u64, User> = ExtractMap::new();
    map.insert(User { id: 1, name: "Cat" });
    let entry = map.entry(&1).insert(User { id: 1, name: "Fox" });
    assert_eq!(entry.get(), &User { id: 1, name: "Fox" });
    assert_eq!(map.len(), 1);
    assert_eq!(map.get(&1), Some(&User { id: 1, name: "Fox" }));
}

#[test]
fn entry_insert_fills_a_vacancy() {
    let mut map: ExtractMap<u64, User> = ExtractMap::new();
    let entry = map.entry(&1).insert(User { id: 1, name: "Fox" });
    assert_eq!(entry.get(), &User { id: 1, name: "Fox" });
    assert_eq!(map.len(), 1);
    assert_eq!(map.get(&1), Some(&User { id: 1, name: "Fox" }));
}

#[test]
fn or_insert_inserts_only_when_vacant() {
    let mut map: ExtractMap<u64, User> = ExtractMap::new();
    let entry = map.entry(&1).or_insert(User { id: 1, name: "Fox" });
    assert_eq!(entry.get(), &User { id: 1, name: "Fox" });
    let entry = map.entry(&1).or_insert(User { id: 1, name: "Cat" });
    assert_eq!(entry.get(), &User { id: 1, name: "Fox" });
    assert_eq!(map.len(), 1);
}

#[test]
fn or_insert_with_inserts_only_when_vacant() {
    let mut map: ExtractMap<u64, User> = ExtractMap::new();
    let entry = map.entry(&1).or_insert_with(|| User { id: 1, name: "Fox" });
    assert_eq!(entry.get(), &User { id: 1, name: "Fox" });
    let entry = map.entry(&1).or_insert_with(|| User { id: 1, name: "Cat" });
    assert_eq!(entry.get(), &User { id: 1, name: "Fox" });
    assert_eq!(map.len(), 1);
}

#[test]
fn or_insert_with_does_not_call_the_function_when_occupied() {
    let mut map: ExtractMap<u64, User> = ExtractMap::new();
    map.insert(User { id: 1, name: "Cat" });
    let mut called = false;
    map.entry(&1).or_insert_with(|| {
        called = true;
        User { id: 1, name: "Fox" }
    });
    assert!(!called);
}

#[test]
fn occupied_remove_empties_the_map() {
    let mut map: ExtractMap<u64, User> = ExtractMap::new();
    map.insert(User { id: 1, name: "Fox" });
    if let Entry::Occupied(entry) = map.entry(&1) {
        assert_eq!(entry.remove().0, User { id: 1, name: "Fox" });
    } else {
        unreachable!();
    }
    assert!(map.is_empty());
}

#[test]
fn occupied_remove_keeps_the_rest() {
    let mut map: ExtractMap<u64, User> = ExtractMap::new();
    for id in 0..10u64 {
        map.insert(User { id, name: "n" });
    }
    if let Entry::Occupied(entry) = map.entry(&4) {
        assert_eq!(entry.remove().0.id, 4);
    } else {
        unreachable!();
    }
    assert_eq!(map.len(), 9);
    for id in 0..10u64 {
        assert_eq!(map.contains_key(&id), id != 4);
    }
}

#[test]
fn occupied_get_reads_the_value() {
    let mut map: ExtractMap<u64, User> = ExtractMap::new();
    map.insert(User { id: 1, name: "Cat" });
    if let Entry::Occupied(entry) = map.entry(&1) {
        assert_eq!(entry.get(), &User { id: 1, name: "Cat" });
    } else {
        unreachable!();
    }
}

#[test]
fn occupied_get_mut_writes_the_value() {
    let mut map: ExtractMap<u64, User> = ExtractMap::new();
    map.insert(User { id: 1, name: "Cat" });
    if let Entry::Occupied(mut entry) = map.entry(&1) {
        entry.get_mut().name = "Fox";
    }
    assert_eq!(map.get(&1), Some(&User { id: 1, name: "Fox" }));
}

#[test]
fn occupied_into_mut_outlives_the_entry() {
    let mut map: ExtractMap<u64, User> = ExtractMap::new();
    map.insert(User { id: 1, name: "Cat" });
    let user_ref = if let Entry::Occupied(entry) = map.entry(&1) {
        entry.into_mut()
    } else {
        unreachable!()
    };
    user_ref.name = "Fox";
    assert_eq!(map.get(&1), Some(&User { id: 1, name: "Fox" }));
}

#[test]
fn occupied_insert_returns_the_old_value() {
    let mut map: ExtractMap<u64, User> = ExtractMap::new();
    map.insert(User { id: 1, name: "Cat" });
    if let Entry::Occupied(mut entry) = map.entry(&1) {
        assert_eq!(entry.insert(User { id: 1, name: "Fox" }), User { id: 1, name: "Cat" });
        assert_eq!(entry.get(), &User { id: 1, name: "Fox" });
    } else {
        unreachable!();
    }
    assert_eq!(map.get(&1), Some(&User { id: 1, name: "Fox" }));
}

#[test]
fn vacant_insert_gives_an_occupied_entry() {
    let mut map: ExtractMap<u64, User> = ExtractMap::new();
    map.insert(User { id: 1, name: "Cat" });
    if let Entry::Vacant(entry) = map.entry(&2) {
        let mut occupied = entry.insert(User { id: 2, name: "Fox" });
        assert_eq!(occupied.get(), &User { id: 2, name: "Fox" });
        occupied.get_mut().name = "Owl";
    } else {
        unreachable!();
    }
    assert_eq!(map.len(), 2);
    assert_eq!(map.get(&2), Some(&User { id: 2, name: "Owl" }));
    assert_eq!(map.get(&1), Some(&User { id: 1, name: "Cat" }));
}

#[test]
fn entry_hashed_finds_by_hash_and_key() {
    let mut map: ExtractMap<u64, User> = ExtractMap::new();
    let hash = map.hash_key(&1);
    assert!(matches!(map.entry_hashed(hash, &1), Entry::Vacant(_)));
    map.insert(User { id: 1, name: "Cat" });
    assert!(matches!(map.entry_hashed(hash, &1), Entry::Occupied(_)));
    assert!(matches!(map.entry_hashed(hash.wrapping_add(1), &1), Entry::Vacant(_)));
    assert!(matches!(map.entry_hashed(hash, &2), Entry::Vacant(_)));
}

#[test]
fn a_key_changed_in_place_stays_under_its_old_hash() {
    let mut map: ExtractMap<u64, User> = ExtractMap::new();
    map.insert_hashed(10, User { id: 1, name: "Cat" });
    map.insert_hashed(20, User { id: 2, name: "Fox" });
    map.entry_hashed(10, &1).and_modify(|user| user.id = 5);
    assert_eq!(map.len(), 2);
    assert_eq!(map.get_hashed(10, &1), None);
    assert_eq!(map.get_hashed(10, &5), Some(&User { id: 5, name: "Cat" }));
    assert_eq!(map.get_hashed(20, &2), Some(&User { id: 2, name: "Fox" }));
    let mut ids = Vec::new();
    let mut iter = map.iter();
    while let Some(user) = iter.next() {
        ids.push(user.id);
    }
    assert_eq!(ids, vec![5, 2]);
}

#[test]
fn a_vacancy_filled_with_another_key_keeps_the_searched_hash() {
    let mut map: ExtractMap<u64, User> = ExtractMap::new();
    if let Entry::Vacant(entry) = map.entry_hashed(10, &1) {
        let occupied = entry.insert(User { id: 3, name: "Owl" });
        assert_eq!(occupied.get(), &User { id: 3, name: "Owl" });
    } else {
        unreachable!();
    }
    assert_eq!(map.len(), 1);
    assert_eq!(map.get_hashed(10, &3), Some(&User { id: 3, name: "Owl" }));
    assert_eq!(map.get_hashed(10, &1), None);
}

#[test]
fn occupied_remove_leaves_a_vacant_entry_for_reuse() {
    let mut map: ExtractMap<u64, User> = ExtractMap::new();
    map.insert(User { id: 1, name: "Cat" });
    map.insert(User { id: 2, name: "Fox" });
    if let Entry::Occupied(entry) = map.entry(&1) {
        let (removed, vacant) = entry.remove();
        assert_eq!(removed, User { id: 1, name: "Cat" });
        assert_eq!(vacant.map.len(), 1);
        assert!(!vacant.map.contains_key(&1));
        let occupied = vacant.insert(User { id: 1, name: "Dog" });
        assert_eq!(occupied.get(), &User { id: 1, name: "Dog" });
    } else {
        unreachable!();
    }
    assert_eq!(map.len(), 2);
    assert_eq!(map.get(&1), Some(&User { id: 1, name: "Dog" }));
    assert_eq!(map.get(&2), Some(&User { id: 2, name: "Fox" }));
}

#[test]
fn occupied_remove_keeps_the_hash_of_the_vacated_slot() {
    let mut map: ExtractMap<u64, User> = ExtractMap::new();
    map.insert_hashed(10, User { id: 1, name: "Cat" });
    if let Entry::Occupied(entry) = map.entry_hashed(10, &1) {
        let (_, vacant) = entry.remove();
        assert_eq!(vacant.hash, 10);
        vacant.insert(User { id: 1, name: "Owl" });
    } else {
        unreachable!();
    }
    assert_eq!(map.get_hashed(10, &1), Some(&User { id: 1, name: "Owl" }));
}

#[test]
fn occupied_remove_may_drop_the_vacant_entry() {
    let mut map: ExtractMap<u64, User> = ExtractMap::new();
    map.insert(User { id: 1, name: "Fox" });
    if let Entry::Occupied(entry) = map.entry(&1) {
        entry.remove();
    }
    assert!(map.is_empty());
}
