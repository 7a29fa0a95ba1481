use cargo_mcp::cache::Cache;

#[test]
fn test_cache_ttl() {
    let mut cache: Cache<String> = Cache::new(100, 10);
    cache.insert("key".to_string(), "value".to_string(), 0);

    // Value is available while younger than the lifetime.
    assert_eq!(cache.get("key", 0), Some("value".to_string()));
    assert_eq!(cache.get("key", 99), Some("value".to_string()));

    // Once the lifetime has passed, the value is gone.
    assert_eq!(cache.get("key", 150), None);
}

#[test]
fn test_cache_max_size() {
    let mut cache: Cache<String> = Cache::new(1000, 2);

    // Insert three items (exceeding the capacity) at distinct times.
    cache.insert("key1".to_string(), "value1".to_string(), 0);
    cache.insert("key2".to_string(), "value2".to_string(), 10);
    cache.insert("key3".to_string(), "value3".to_string(), 20);

    // The oldest entry (key1) is gone, the later ones stay.
    assert_eq!(cache.get("key1", 30), None);
    assert_eq!(cache.get("key2", 30), Some("value2".to_string()));
    assert_eq!(cache.get("key3", 30), Some("value3".to_string()));
}

#[test]
fn test_cache_cleanup() {
    let mut cache: Cache<String> = Cache::new(100, 10);
    cache.insert("key1".to_string(), "value1".to_string(), 0);
    cache.insert("key2".to_string(), "value2".to_string(), 150);

    cache.cleanup(150);

    // key1 is removed, key2 remains.
    assert_eq!(cache.get("key1", 150), None);
    assert_eq!(cache.get("key2", 150), Some("value2".to_string()));
}

#[test]
fn test_cache_stale_entry_left_until_cleanup() {
    let mut cache: Cache<String> = Cache::new(50, 10);
    cache.insert("old".to_string(), "v".to_string(), 0);

    // A stale entry is a miss but still occupies its slot ...
    assert_eq!(cache.get("old", 100), None);

    // ... so re-inserting the same key replaces it in place.
    cache.insert("old".to_string(), "w".to_string(), 100);
    assert_eq!(cache.get("old", 120), Some("w".to_string()));
}

#[test]
fn test_cache_replaces_existing_key() {
    let mut cache: Cache<i64> = Cache::new(1000, 5);
    cache.insert("k".to_string(), 1, 0);
    cache.insert("k".to_string(), 2, 5);
    assert_eq!(cache.get("k", 6), Some(2));
}

#[test]
fn test_cache_future_timestamp_is_miss() {
    let mut cache: Cache<String> = Cache::new(100, 10);
    cache.insert("k".to_string(), "v".to_string(), 50);

    // An entry stamped in the future is not considered valid.
    assert_eq!(cache.get("k", 10), None);
}
