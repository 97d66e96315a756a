use ssh_guard::strmap::StrMap;

#[test]
fn later_insert_replaces_the_value_in_place() {
    let mut m = StrMap::new();
    m.insert("a".to_string(), 1);
    m.insert("b".to_string(), 2);
    m.insert("a".to_string(), 3);
    assert_eq!(m.get("a"), Some(&3));
    assert_eq!(m.get("b"), Some(&2));
    assert_eq!(m.get("c"), None);
    assert_eq!(m.num_entries(), 2);
    assert!(m.contains_key("b"));
    assert!(!m.contains_key("c"));
    let entries = m.into_entries();
    assert_eq!(entries, vec![("a".to_string(), 3), ("b".to_string(), 2)]);
}

#[test]
fn replace_swaps_a_value_and_keeps_the_order() {
    let mut m = StrMap::new();
    m.insert("x".to_string(), 10);
    m.insert("y".to_string(), 20);
    assert_eq!(m.replace("x", 11), Some(10));
    assert_eq!(m.replace("z", 99), None);
    assert_eq!(m.get("x"), Some(&11));
    assert!(!m.contains_key("z"));
    let (k, v) = m.entry(0);
    assert_eq!((k.as_str(), *v), ("x", 11));
    assert!(!m.is_empty());
    assert!(StrMap::<u8>::new().is_empty());
}
