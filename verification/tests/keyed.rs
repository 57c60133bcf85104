use remtodo::keyed::{TextMap, TextSet};

#[test]
fn map_keeps_the_order_of_first_insertion() {
    let mut m: TextMap<String> = TextMap::new();
    assert!(m.is_empty());
    m.insert("b".to_string(), "1".to_string());
    m.insert("a".to_string(), "2".to_string());
    m.insert("b".to_string(), "3".to_string());
    assert_eq!(m.len(), 2);
    assert_eq!(m.key_at(0), "b");
    assert_eq!(m.value_at(0), "3");
    assert_eq!(m.key_at(1), "a");
    assert_eq!(m.get("a").map(|s| s.as_str()), Some("2"));
    assert_eq!(m.get("c"), None);
    assert!(m.contains_key("b"));
    assert!(!m.contains_key("c"));
}

#[test]
fn removed_keys_are_gone() {
    let mut m: TextMap<String> = TextMap::new();
    for (k, v) in [("a", "1"), ("b", "2"), ("c", "3")] {
        m.insert(k.to_string(), v.to_string());
    }
    assert_eq!(m.remove("b"), Some("2".to_string()));
    assert_eq!(m.remove("b"), None);
    assert_eq!(m.len(), 2);
    assert_eq!(m.key_at(1), "c");
    assert!(!m.contains_key("b"));
}

#[test]
fn set_holds_what_was_inserted() {
    let mut s = TextSet::new();
    assert!(s.is_empty());
    s.insert("eid-1".to_string());
    s.insert("eid-1".to_string());
    assert!(!s.is_empty());
    assert!(s.contains("eid-1"));
    assert!(!s.contains("eid-2"));
}
