use git_detective::{StringMap, StringSet};

#[test]
fn string_map_starts_empty() {
    let map: StringMap<u32> = StringMap::new();
    assert!(map.is_empty());
    assert_eq!(map.len(), 0);
    assert!(map.get("a").is_none());
    assert!(!map.contains_key("a"));
    assert_eq!(map.position("a"), None);
}

#[test]
fn string_map_insert_replaces_and_keeps_order() {
    let mut map: StringMap<u32> = StringMap::new();
    assert_eq!(map.insert("b".to_string(), 1), None);
    assert_eq!(map.insert("a".to_string(), 2), None);
    assert_eq!(map.insert("b".to_string(), 3), Some(1));
    assert_eq!(map.len(), 2);
    assert!(!map.is_empty());
    assert_eq!(map.get("b"), Some(&3));
    assert_eq!(map.get("a"), Some(&2));
    assert_eq!(map.get("c"), None);
    assert_eq!(map.position("b"), Some(0));
    assert_eq!(map.position("a"), Some(1));
    assert_eq!(map.key_at(0), "b");
    assert_eq!(map.key_at(1), "a");
    assert_eq!(*map.value_at(0), 3);
    let walked: Vec<(String, u32)> = map.iter().map(|(k, v)| (k.clone(), *v)).collect();
    assert_eq!(walked, vec![("b".to_string(), 3), ("a".to_string(), 2)]);
}

#[test]
fn string_map_replace_at_hands_back_the_old_value() {
    let mut map: StringMap<u32> = StringMap::new();
    map.insert("x".to_string(), 7);
    map.insert("y".to_string(), 8);
    assert_eq!(map.replace_at(1, 80), 8);
    assert_eq!(map.get("y"), Some(&80));
    assert_eq!(map.get("x"), Some(&7));
    assert_eq!(map.key_at(1), "y");
}

#[test]
fn string_set_holds_each_member_once() {
    let mut set = StringSet::new();
    assert!(set.is_empty());
    assert!(set.insert("src/lib.rs".to_string()));
    assert!(set.insert("README.md".to_string()));
    assert!(!set.insert("src/lib.rs".to_string()));
    assert_eq!(set.len(), 2);
    assert!(!set.is_empty());
    assert!(set.contains("src/lib.rs"));
    assert!(set.contains("README.md"));
    assert!(!set.contains("Cargo.toml"));
    assert_eq!(set.member_at(0), "src/lib.rs");
    assert_eq!(set.member_at(1), "README.md");
    let walked: Vec<String> = set.iter().cloned().collect();
    assert_eq!(walked, vec!["src/lib.rs".to_string(), "README.md".to_string()]);
}
