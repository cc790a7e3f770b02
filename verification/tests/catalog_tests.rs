use rmg_tool::catalog::VersionMap;

#[test]
fn version_map_starts_empty() {
    let m: VersionMap<String> = VersionMap::new();
    assert_eq!(m.len(), 0);
    assert!(!m.contains_key("1"));
    assert!(m.get("1").is_none());
}

#[test]
fn version_map_keeps_ascending_order() {
    let mut m: VersionMap<String> = VersionMap::new();
    m.insert("20230315".to_string(), "c".to_string());
    m.insert("20220601".to_string(), "a".to_string());
    m.insert("20230101".to_string(), "b".to_string());
    assert_eq!(m.len(), 3);
    assert_eq!(m.key_at(0), "20220601");
    assert_eq!(m.key_at(1), "20230101");
    assert_eq!(m.key_at(2), "20230315");
    assert_eq!(m.value_at(0), "a");
    assert_eq!(m.value_at(1), "b");
    assert_eq!(m.value_at(2), "c");
}

#[test]
fn version_map_last_write_wins() {
    let mut m: VersionMap<String> = VersionMap::new();
    m.insert("1".to_string(), "old".to_string());
    m.insert("2".to_string(), "two".to_string());
    m.insert("1".to_string(), "new".to_string());
    assert_eq!(m.len(), 2);
    assert_eq!(m.get("1"), Some(&"new".to_string()));
    assert_eq!(m.get("2"), Some(&"two".to_string()));
    assert_eq!(m.get("3"), None);
}

#[test]
fn version_map_contains_what_was_inserted() {
    let mut m: VersionMap<String> = VersionMap::new();
    m.insert("b".to_string(), "x".to_string());
    assert!(m.contains_key("b"));
    assert!(!m.contains_key("a"));
    assert!(!m.contains_key("c"));
    assert!(!m.contains_key(""));
}

#[test]
fn version_map_orders_a_prefix_before_its_extensions() {
    let mut m: VersionMap<String> = VersionMap::new();
    m.insert("10".to_string(), "ten".to_string());
    m.insert("1".to_string(), "one".to_string());
    m.insert("9".to_string(), "nine".to_string());
    m.insert("".to_string(), "none".to_string());
    assert_eq!(m.key_at(0), "");
    assert_eq!(m.key_at(1), "1");
    assert_eq!(m.key_at(2), "10");
    assert_eq!(m.key_at(3), "9");
}
