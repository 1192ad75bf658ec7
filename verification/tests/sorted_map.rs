use estoque_relogios::sorted_map::SortedMap;

#[test]
fn sorted_map_starts_empty() {
    let m: SortedMap<i32> = SortedMap::new();
    assert_eq!(m.len(), 0);
    assert_eq!(m.get("A1"), None);
    assert!(!m.contains_key("A1"));
}

#[test]
fn sorted_map_keeps_what_is_inserted() {
    let mut m: SortedMap<i32> = SortedMap::new();
    m.insert("B2".to_string(), 2);
    m.insert("A1".to_string(), 1);
    m.insert("C3".to_string(), 3);
    assert_eq!(m.len(), 3);
    assert_eq!(m.get("A1"), Some(1));
    assert_eq!(m.get("B2"), Some(2));
    assert_eq!(m.get("C3"), Some(3));
    assert_eq!(m.get("D4"), None);
    assert!(m.contains_key("B2"));
    assert!(!m.contains_key("B"));
}

#[test]
fn sorted_map_replaces_the_value_of_a_key() {
    let mut m: SortedMap<i32> = SortedMap::new();
    m.insert("A1".to_string(), 1);
    m.insert("A1".to_string(), 7);
    assert_eq!(m.len(), 1);
    assert_eq!(m.get("A1"), Some(7));
}

#[test]
fn sorted_map_lists_its_keys_in_ascending_order() {
    let mut m: SortedMap<usize> = SortedMap::new();
    let keys = ["m", "b", "z", "a", "ç", "B", "10", "2", "", "ab"];
    for (i, k) in keys.iter().enumerate() {
        m.insert(k.to_string(), i);
    }
    let mut expected: Vec<&str> = keys.to_vec();
    expected.sort();
    assert_eq!(m.len(), expected.len());
    for (i, k) in expected.iter().enumerate() {
        assert_eq!(m.key_at(i), k);
        let place = keys.iter().position(|x| x == k).unwrap();
        assert_eq!(m.value_at(i), place);
    }
}
