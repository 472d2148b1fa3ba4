use extract_map::doc_examples::User;
use extract_map::iter::IterMut;
use extract_map::ExtractMap;

fn three() -> ExtractMap<u64, User> {
    let mut map = ExtractMap::new();
    map.insert(User { id: 1, name: "a" });
    map.insert(User { id: 2, name: "b" });
    map.insert(User { id: 3, name: "c" });
    map
}

#[test]
fn iter_visits_every_value_once() {
    let map = three();
    let mut iter = map.iter();
    assert_eq!(iter.len(), 3);
    assert_eq!(iter.size_hint(), (3, Some(3)));
    let mut ids = Vec::new();
    while let Some(user) = iter.next() {
        ids.push(user.id);
    }
    assert_eq!(ids, vec![1, 2, 3]);
    assert_eq!(iter.len(), 0);
    assert!(iter.next().is_none());
    assert_eq!(map.len(), 3);
}

#[test]
fn iter_can_be_started_again() {
    let map = three();
    let mut first = map.iter();
    first.next();
    let mut second = map.iter();
    assert_eq!(second.len(), 3);
    assert_eq!(second.next().map(|user| user.id), Some(1));
    assert_eq!(first.next().map(|user| user.id), Some(2));
}

#[test]
fn iter_of_an_empty_map_is_empty() {
    let map = ExtractMap::<u64, User>::new();
    let mut iter = map.iter();
    assert_eq!(iter.size_hint(), (0, Some(0)));
    assert!(iter.next().is_none());
}

#[test]
fn into_iter_yields_the_values_in_the_same_order() {
    let map = three();
    let mut iter = map.into_iter();
    assert_eq!(iter.len(), 3);
    assert_eq!(iter.size_hint(), (3, Some(3)));
    assert_eq!(iter.next(), Some(User { id: 1, name: "a" }));
    assert_eq!(iter.len(), 2);
    assert_eq!(iter.next(), Some(User { id: 2, name: "b" }));
    assert_eq!(iter.next(), Some(User { id: 3, name: "c" }));
    assert_eq!(iter.next(), None);
    assert_eq!(iter.size_hint(), (0, Some(0)));
}

#[test]
fn collecting_iter_gives_an_equal_map() {
    let mut map = three();
    map.remove(&1);
    map.insert(User { id: 9, name: "z" });
    let mut values = Vec::new();
    let mut iter = map.iter();
    while let Some(user) = iter.next() {
        values.push(user.clone());
    }
    let copy: ExtractMap<u64, User> = ExtractMap::from_iter(values);
    assert!(copy.equals(&map));
    assert!(map.equals(&copy));
    assert_eq!(copy.len(), 3);
}

#[test]
fn iter_mut_lends_each_value_once() {
    let mut map = three();
    let mut iter = map.iter_mut();
    assert_eq!(iter.size_hint(), (3, Some(3)));
    let mut seen = Vec::new();
    while let Some(mut guard) = iter.next() {
        seen.push(guard.id);
        guard.name = "seen";
        guard.release();
    }
    assert_eq!(iter.size_hint(), (0, Some(0)));
    assert_eq!(seen, vec![1, 2, 3]);
    assert_eq!(map.len(), 3);
    for id in 1..=3u64 {
        assert_eq!(map.get(&id), Some(&User { id, name: "seen" }));
    }
}

#[test]
fn iter_mut_rewriting_keys_loses_nothing() {
    let mut map = three();
    let mut iter = map.iter_mut();
    while let Some(mut guard) = iter.next() {
        guard.id += 10;
        guard.release();
    }
    assert_eq!(map.len(), 3);
    let mut ids = Vec::new();
    let mut values = map.iter();
    while let Some(user) = values.next() {
        ids.push(user.id);
    }
    ids.sort();
    assert_eq!(ids, vec![11, 12, 13]);
    for id in 1..=3u64 {
        assert!(!map.contains_key(&id));
    }
    assert_eq!(map.get(&11), Some(&User { id: 11, name: "a" }));
    assert_eq!(map.get(&12), Some(&User { id: 12, name: "b" }));
    assert_eq!(map.get(&13), Some(&User { id: 13, name: "c" }));
}

#[test]
fn iter_mut_notes_the_keys_when_it_is_made() {
    let mut map = three();
    let mut iter = IterMut::new(&mut map);
    let mut steps = 0;
    while let Some(mut guard) = iter.next() {
        guard.id += 1;
        guard.release();
        steps += 1;
    }
    assert!(steps <= 3);
    assert_eq!(iter.size_hint().0 + steps, 3);
}

#[test]
fn for_each_on_values_keeps_them_in_the_map() {
    let mut map = three();
    let mut names = Vec::new();
    map.iter_mut().for_each(|user| {
        names.push(user.name);
        user.name = "done";
    });
    assert_eq!(names, vec!["a", "b", "c"]);
    assert_eq!(map.len(), 3);
    for id in 1..=3u64 {
        assert_eq!(map.get(&id), Some(&User { id, name: "done" }));
    }
}

#[test]
fn next_hashed_looks_under_the_given_hash() {
    let mut map = ExtractMap::<u64, User>::new();
    map.insert_hashed(10, User { id: 1, name: "a" });
    map.insert_hashed(20, User { id: 2, name: "b" });
    let mut iter = map.iter_mut();
    let mut guard = iter.next_hashed(10).unwrap();
    assert_eq!(guard.id, 1);
    guard.id = 11;
    guard.release_hashed(110);
    assert!(iter.next_hashed(21).is_none());
    assert_eq!(iter.size_hint(), (0, Some(0)));
    assert!(iter.next_hashed(20).is_none());
    assert_eq!(map.len(), 2);
    assert_eq!(map.get_hashed(110, &11), Some(&User { id: 11, name: "a" }));
    assert_eq!(map.get_hashed(20, &2), Some(&User { id: 2, name: "b" }));
    assert_eq!(map.get_hashed(10, &1), None);
}

#[test]
fn for_each_onto_one_key_keeps_the_value_stored_last() {
    let mut map = three();
    let mut seen = Vec::new();
    map.iter_mut().for_each(|user| {
        seen.push((user.id, user.name));
        user.id = 3;
    });
    assert_eq!(seen, vec![(1, "a"), (2, "b"), (3, "b")]);
    assert_eq!(map.len(), 1);
    assert_eq!(map.get(&3), Some(&User { id: 3, name: "b" }));
}
