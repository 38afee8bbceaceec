use llrt_core::cache::BytecodeCache;

#[test]
fn empty_cache() {
    let cache = BytecodeCache::new();
    assert_eq!(cache.len(), 0);
    assert_eq!(cache.get("main"), None);
}

#[test]
fn read_after_write() {
    let mut cache = BytecodeCache::new();
    cache.insert("a".to_string(), vec![1]);
    cache.insert("b".to_string(), vec![2]);
    assert_eq!(cache.get("a"), Some(&vec![1]));
    assert_eq!(cache.get("b"), Some(&vec![2]));
    assert_eq!(cache.get("c"), None);
    assert_eq!(cache.len(), 2);
}

#[test]
fn last_write_wins() {
    let mut cache = BytecodeCache::new();
    cache.insert("a".to_string(), vec![1]);
    cache.insert("a".to_string(), vec![3]);
    assert_eq!(cache.get("a"), Some(&vec![3]));
    assert_eq!(cache.len(), 1);
}

#[test]
fn from_entries_later_entry_wins() {
    let cache = BytecodeCache::from_entries(vec![
        ("x".to_string(), vec![1]),
        ("y".to_string(), vec![2]),
        ("x".to_string(), vec![3]),
    ]);
    assert_eq!(cache.get("x"), Some(&vec![3]));
    assert_eq!(cache.get("y"), Some(&vec![2]));
    assert_eq!(cache.len(), 2);
}

#[test]
fn names_are_compared_whole() {
    let mut cache = BytecodeCache::new();
    cache.insert("main".to_string(), vec![1]);
    assert_eq!(cache.get("mai"), None);
    assert_eq!(cache.get("main.js"), None);
    assert_eq!(cache.get("ma\u{ef}n"), None);
}
