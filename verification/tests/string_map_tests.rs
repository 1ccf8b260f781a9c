use emailsched::string_map::StringMap;

fn sample_map() -> StringMap<u32> {
    let mut map: StringMap<u32> = StringMap::new();
    map.insert(String::from("pear"), 3);
    map.insert(String::from("apple"), 1);
    map.insert(String::from("quince"), 4);
    map.insert(String::from("banana"), 2);
    map
}

#[test]
fn a_new_map_is_empty() {
    let map: StringMap<u32> = StringMap::new();
    assert_eq!(map.len(), 0);
    assert_eq!(map.get("a"), None);
}

#[test]
fn what_is_inserted_is_found() {
    let map = sample_map();
    assert_eq!(map.len(), 4);
    assert_eq!(map.get("apple"), Some(&1));
    assert_eq!(map.get("banana"), Some(&2));
    assert_eq!(map.get("pear"), Some(&3));
    assert_eq!(map.get("quince"), Some(&4));
    assert_eq!(map.get("cherry"), None);
    assert_eq!(map.get(""), None);
    assert_eq!(map.get("zebra"), None);
}

#[test]
fn the_keys_stand_in_ascending_order() {
    let map = sample_map();
    assert_eq!(map.key_at(0), "apple");
    assert_eq!(map.key_at(1), "banana");
    assert_eq!(map.key_at(2), "pear");
    assert_eq!(map.key_at(3), "quince");
    assert_eq!(*map.value_at(0), 1);
    assert_eq!(*map.value_at(3), 4);
}

#[test]
fn a_second_value_takes_the_place_of_the_first() {
    let mut map = sample_map();
    map.insert(String::from("pear"), 30);
    assert_eq!(map.len(), 4);
    assert_eq!(map.get("pear"), Some(&30));
    assert_eq!(map.get("apple"), Some(&1));
    assert_eq!(map.key_at(2), "pear");
}

#[test]
fn the_order_of_insertion_does_not_matter() {
    let mut other: StringMap<u32> = StringMap::new();
    other.insert(String::from("quince"), 4);
    other.insert(String::from("banana"), 2);
    other.insert(String::from("apple"), 1);
    other.insert(String::from("pear"), 3);
    assert_eq!(other, sample_map());
}

#[test]
fn a_clone_holds_the_same_pairs() {
    let map = sample_map();
    let copy = map.clone();
    assert_eq!(copy, map);
    assert_eq!(copy.get("banana"), Some(&2));
}

#[test]
fn the_map_agrees_with_a_btree_map() {
    let words = ["delta", "alpha", "charlie", "alpha", "bravo", "", "delta", "échelon", "Zulu"];
    let mut ours: StringMap<usize> = StringMap::new();
    let mut theirs: std::collections::BTreeMap<String, usize> = std::collections::BTreeMap::new();
    for (i, word) in words.iter().enumerate() {
        ours.insert(word.to_string(), i);
        theirs.insert(word.to_string(), i);
    }
    assert_eq!(ours.len(), theirs.len());
    for (i, (key, value)) in theirs.iter().enumerate() {
        assert_eq!(ours.key_at(i), key);
        assert_eq!(ours.value_at(i), value);
        assert_eq!(ours.get(key), Some(value));
    }
}
