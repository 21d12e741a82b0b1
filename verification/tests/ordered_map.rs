use monaxide::linked_hash_map::LinkedHashMap;

fn keys_in_order(m: &LinkedHashMap<String>) -> Vec<u64> {
    m.iter().iter().map(|e| e.0).collect()
}

#[test]
fn bump_preserves_other_order() {
    let mut map: LinkedHashMap<String> = LinkedHashMap::new();
    assert!(map.insert(1, String::from("a")).is_none());
    assert!(map.insert(2, String::from("b")).is_none());
    assert!(map.insert(3, String::from("c")).is_none());
    assert!(map.bump(1));
    let entries = map.iter();
    assert_eq!(3, entries.len());
    assert_eq!((1, "a"), (entries[0].0, entries[0].1.as_str()));
    assert_eq!((3, "c"), (entries[1].0, entries[1].1.as_str()));
    assert_eq!((2, "b"), (entries[2].0, entries[2].1.as_str()));
}

#[test]
fn insert_is_lifo_and_refuses_duplicates() {
    let mut map: LinkedHashMap<String> = LinkedHashMap::new();
    assert!(map.insert(1, String::from("1")).is_none());
    assert!(map.insert(4, String::from("2")).is_none());
    assert!(map.insert(9, String::from("3")).is_none());
    // the legacy quirk: the rejected value comes back, the entry is kept
    assert_eq!(Some(String::from("4")), map.insert(4, String::from("4")));
    assert_eq!(Some(&String::from("1")), map.get(1));
    assert_eq!(Some(&String::from("2")), map.get(4));
    assert_eq!(Some(&String::from("3")), map.get(9));
    assert_eq!(vec![9, 4, 1], keys_in_order(&map));
}

#[test]
fn remove_closes_the_gap() {
    let mut map: LinkedHashMap<String> = LinkedHashMap::new();
    map.insert(0, String::from("2"));
    map.insert(1, String::from("1"));
    map.insert(2, String::from("0"));
    assert_eq!(vec![2, 1, 0], keys_in_order(&map));
    assert_eq!(Some(String::from("1")), map.remove(1));
    assert_eq!(Some(String::from("2")), map.remove(0));
    assert!(map.remove(7).is_none());
    assert_eq!(vec![2], keys_in_order(&map));
    assert_eq!(1, map.len());
    assert!(map.contains_key(2));
    assert!(!map.contains_key(1));
}

#[test]
fn bump_missing_key_reports_false() {
    let mut map: LinkedHashMap<String> = LinkedHashMap::new();
    map.insert(5, String::from("x"));
    assert!(!map.bump(6));
    assert_eq!(vec![5], keys_in_order(&map));
}

#[test]
fn get_mut_changes_only_the_value() {
    let mut map: LinkedHashMap<String> = LinkedHashMap::with_capacity(4);
    map.insert(10, String::from("old"));
    map.insert(11, String::from("keep"));
    *map.get_mut(10) = String::from("new");
    assert_eq!(Some(&String::from("new")), map.get(10));
    assert_eq!(Some(&String::from("keep")), map.get(11));
    assert_eq!(vec![11, 10], keys_in_order(&map));
}
