use booth2rss::cache::{CachedValue, ResponseCache};

const MS: u128 = 1_000_000;

#[test]
fn test_get_active_value() {
    let key = "Testo".to_string();
    let value = "Telesto".to_string();

    let mut cache = ResponseCache::with_defaults();

    cache.add_item(key.clone(), value.clone());

    let result = cache.get_active_value(&key).unwrap();

    assert_eq!(result, &value);
}

#[test]
fn test_active_value_multiple() {
    let key1 = "Testo".to_string();
    let key2 = "Telesto".to_string();
    let value1 = "foo".to_string();
    let value2 = "bar".to_string();

    let mut cache = ResponseCache::with_defaults();

    cache.add_item(key1.clone(), value1.clone());
    cache.add_item(key2.clone(), value2.clone());

    let result1 = cache.get_active_value(&key1).unwrap();
    let result2 = cache.get_active_value(&key2).unwrap();

    assert_eq!(result1, &value1);
    assert_eq!(result2, &value2);
}

#[test]
fn test_get_active_value_none() {
    let key = "Testo".to_string();
    let value = "Telesto".to_string();

    let mut cache = ResponseCache::with_defaults();

    cache.add_item(key, value);

    let result = cache.get_active_value(&"nonexistium".to_string());

    assert_eq!(result, None);
}

#[test]
fn test_get_active_value_expired() {
    let key = "Testo".to_string();
    let value = "Telesto".to_string();

    let mut cache = ResponseCache::new(50, 200 * MS);

    cache.add_item_at(key.clone(), value, 1_000 * MS);
    let later = 1_000 * MS + 200 * MS + 1;

    let result = cache.get_active_value_at(&"nonexistium".to_string(), later);
    assert_eq!(result, None);
    assert_eq!(cache.get_active_value_at(&key, later), None);
}

#[test]
fn test_remove_oldest() {
    let key1 = "Testo".to_string();
    let key2 = "Telesto".to_string();

    let mut cache = ResponseCache::with_defaults();

    let t0 = 5_000 * MS;
    cache.add_item_at(key1.clone(), key1.clone(), t0);
    cache.add_item_at(key2.clone(), key2.clone(), t0 + 100 * MS);

    assert!(cache.remove_oldest_at(t0 + 100 * MS + 1));

    let result1 = cache.get_item(&key1);
    let result2 = cache.get_item(&key2);

    match result2 {
        Some(cv) => assert_eq!(cv.value, key2),
        None => assert!(false),
    };

    match result1 {
        Some(_) => assert!(false),
        None => assert!(true),
    };
}

#[test]
fn test_ensure_size() {
    let key1 = "Testo".to_string();
    let key2 = "Telesto".to_string();
    let value1 = "foo".to_string();
    let value2 = "bar".to_string();

    let mut cache = ResponseCache::new(2, 10_000 * MS);

    let t0 = 7_000 * MS;
    cache.add_item_at(key1.clone(), value1.clone(), t0);
    cache.add_item_at(key2.clone(), value2.clone(), t0 + 100 * MS);

    cache.ensure_size_at(t0 + 100 * MS + 1);

    let result1 = cache.get_item(&key1);
    let result2 = cache.get_item(&key2);

    match result2 {
        Some(cv) => assert_eq!(cv.value, value2),
        None => assert!(false),
    };

    match result1 {
        Some(_) => assert!(false),
        None => assert!(true),
    };
}

#[test]
fn test_prune() {
    let key1 = "Testo".to_string();
    let key2 = "Telesto".to_string();
    let value1 = "foo".to_string();
    let value2 = "bar".to_string();

    let mut cache = ResponseCache::new(50, 200 * MS);

    let t0 = 9_000 * MS;
    cache.add_item_at(key1.clone(), value1.clone(), t0);
    cache.add_item_at(key2.clone(), value2.clone(), t0 + 200 * MS + 1);

    assert_eq!(cache.prune_at(t0 + 200 * MS + 1), 1);

    let result1 = cache.get_item(&key1);
    let result2 = cache.get_item(&key2);

    match result2 {
        Some(cv) => assert_eq!(cv.value, value2),
        None => assert!(false),
    };

    match result1 {
        Some(_) => assert!(false),
        None => assert!(true),
    };
}

#[test]
fn test_is_expired() {
    let cache = ResponseCache::new(50, 200 * MS);

    let now = 3_000 * MS;
    let item = CachedValue { timestamp: now, value: "Test".to_string() };

    assert!(!cache.is_expired_at(&item, now));
    assert!(cache.is_expired_at(&item, now + 200 * MS + 1));
}

#[test]
fn value_is_active_up_to_max_age_exactly() {
    let mut cache = ResponseCache::new(10, 1_000);
    let key = "k".to_string();
    cache.add_item_at(key.clone(), "v".to_string(), 5_000);
    assert_eq!(cache.get_active_value_at(&key, 5_000).unwrap(), "v");
    assert_eq!(cache.get_active_value_at(&key, 6_000).unwrap(), "v");
    assert_eq!(cache.get_active_value_at(&key, 6_001), None);
    // A value stored after the time asked about counts as expired.
    assert_eq!(cache.get_active_value_at(&key, 4_999), None);
    // The entry itself is still there.
    assert_eq!(cache.get_item(&key).unwrap().timestamp, 5_000);
}

#[test]
fn add_item_replaces_value_under_same_key() {
    let mut cache = ResponseCache::new(10, 1_000_000);
    let key = "k".to_string();
    cache.add_item_at(key.clone(), "old".to_string(), 10);
    cache.add_item_at(key.clone(), "new".to_string(), 20);
    let entry = cache.get_item(&key).unwrap();
    assert_eq!(entry.value, "new");
    assert_eq!(entry.timestamp, 20);
}

#[test]
fn full_cache_keeps_at_most_max_size_entries() {
    let mut cache = ResponseCache::new(3, 1_000_000);
    for i in 0..10u128 {
        cache.add_item_at(format!("key{i}"), format!("value{i}"), 100 + i);
    }
    let present: Vec<u128> = (0..10u128)
        .filter(|i| cache.get_item(&format!("key{i}")).is_some())
        .collect();
    assert_eq!(present, vec![7, 8, 9]);
}

#[test]
fn full_cache_drops_expired_before_oldest() {
    let mut cache = ResponseCache::new(3, 100);
    cache.add_item_at("a".to_string(), "1".to_string(), 1_000);
    cache.add_item_at("b".to_string(), "2".to_string(), 500);
    cache.add_item_at("c".to_string(), "3".to_string(), 1_010);
    // At 1_020, "b" is expired (stored 520 ago); dropping it makes room.
    cache.add_item_at("d".to_string(), "4".to_string(), 1_020);
    assert!(cache.get_item(&"a".to_string()).is_some());
    assert!(cache.get_item(&"b".to_string()).is_none());
    assert!(cache.get_item(&"c".to_string()).is_some());
    assert!(cache.get_item(&"d".to_string()).is_some());
}

#[test]
fn ensure_size_removes_only_what_is_needed() {
    let mut cache = ResponseCache::new(3, 1_000);
    cache.add_item_at("a".to_string(), "1".to_string(), 10);
    cache.add_item_at("b".to_string(), "2".to_string(), 20);
    cache.add_item_at("c".to_string(), "3".to_string(), 30);
    cache.ensure_size_at(40);
    assert!(cache.get_item(&"a".to_string()).is_none());
    assert!(cache.get_item(&"b".to_string()).is_some());
    assert!(cache.get_item(&"c".to_string()).is_some());
    // Not full any more: nothing else goes.
    cache.ensure_size_at(50);
    assert!(cache.get_item(&"b".to_string()).is_some());
    assert!(cache.get_item(&"c".to_string()).is_some());
}

#[test]
fn ensure_size_removes_entries_stored_at_now() {
    let mut cache = ResponseCache::new(1, 1_000);
    cache.add_item_at("a".to_string(), "1".to_string(), 50);
    // The cache is full; the only entry goes, though it was stored at 50.
    cache.ensure_size_at(50);
    assert!(cache.get_item(&"a".to_string()).is_none());
    cache.add_item_at("b".to_string(), "2".to_string(), 60);
    cache.add_item_at("c".to_string(), "3".to_string(), 60);
    assert!(cache.get_item(&"b".to_string()).is_none());
    assert!(cache.get_item(&"c".to_string()).is_some());
}

#[test]
fn remove_oldest_only_before_now() {
    let mut cache = ResponseCache::new(5, 1_000);
    cache.add_item_at("a".to_string(), "1".to_string(), 50);
    assert!(!cache.remove_oldest_at(50));
    assert!(cache.get_item(&"a".to_string()).is_some());
    assert!(cache.remove_oldest_at(51));
    assert!(cache.get_item(&"a".to_string()).is_none());
}

#[test]
fn prune_counts_removed_entries() {
    let mut cache = ResponseCache::new(10, 10);
    cache.add_item_at("a".to_string(), "1".to_string(), 0);
    cache.add_item_at("b".to_string(), "2".to_string(), 5);
    cache.add_item_at("c".to_string(), "3".to_string(), 30);
    assert_eq!(cache.prune_at(30), 2);
    assert_eq!(cache.prune_at(30), 0);
    assert!(cache.get_item(&"c".to_string()).is_some());
    assert_eq!(cache.prune(), 1);
}
