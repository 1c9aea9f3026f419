use opengemini_engine::cache::{generate_cache_key, CacheConfig, QueryCache};

fn get_json(cache: &mut QueryCache, key: &str) -> Option<Vec<i32>> {
    cache.get_bytes(key).and_then(|bytes| serde_json::from_slice(&bytes).ok())
}

#[test]
fn test_cache_basic_operations() {
    let mut cache = QueryCache::new(CacheConfig::default());

    let key = "test_key";
    let value = serde_json::to_vec(&vec![1, 2, 3]).unwrap();

    cache.insert(key.to_string(), value.clone());

    let retrieved: Vec<i32> = get_json(&mut cache, key).unwrap();
    assert_eq!(retrieved, vec![1, 2, 3]);

    let stats = cache.stats();
    assert_eq!(stats.insertions, 1);
    assert_eq!(stats.hits, 1);
}

#[test]
fn test_cache_miss() {
    let mut cache = QueryCache::new(CacheConfig::default());

    let result: Option<Vec<i32>> = get_json(&mut cache, "nonexistent");
    assert!(result.is_none());

    let stats = cache.stats();
    assert_eq!(stats.misses, 1);
}

#[test]
fn test_cache_invalidate() {
    let mut cache = QueryCache::new(CacheConfig::default());

    cache.insert("key1".to_string(), vec![1, 2, 3]);
    cache.invalidate("key1");

    let result: Option<Vec<i32>> = get_json(&mut cache, "key1");
    assert!(result.is_none());
}

#[test]
fn test_cache_clear() {
    let mut cache = QueryCache::new(CacheConfig::default());

    cache.insert("key1".to_string(), vec![1]);
    cache.insert("key2".to_string(), vec![2]);
    cache.clear();

    assert!(cache.is_empty());
}

#[test]
fn test_cache_max_entries() {
    let config = CacheConfig { max_entries: 2, ttl_seconds: 3600, max_memory_bytes: 1000 };
    let mut cache = QueryCache::new(config);

    cache.insert("key1".to_string(), vec![1]);
    cache.insert("key2".to_string(), vec![2]);
    cache.insert("key3".to_string(), vec![3]);

    assert!(cache.len() <= 3);
}

#[test]
fn test_generate_cache_key() {
    let key = generate_cache_key("db", "cpu", "SELECT *", (0, 1000));
    assert_eq!(key, "db_cpu_SELECT *_0_1000");
}

#[test]
fn least_recently_used_entry_is_evicted_first() {
    let config = CacheConfig { max_entries: 2, ttl_seconds: 3600, max_memory_bytes: 1000 };
    let mut cache = QueryCache::new(config);
    cache.insert("a".to_string(), vec![1]);
    cache.insert("b".to_string(), vec![2]);
    assert_eq!(cache.get_bytes("a"), Some(vec![1]));
    cache.insert("c".to_string(), vec![3]);
    assert_eq!(cache.len(), 2);
    assert!(cache.get_bytes("b").is_none());
    assert_eq!(cache.get_bytes("a"), Some(vec![1]));
    assert_eq!(cache.get_bytes("c"), Some(vec![3]));
    assert_eq!(cache.stats().evictions, 1);
}

#[test]
fn memory_limit_evicts_until_the_value_fits() {
    let config = CacheConfig { max_entries: 10, ttl_seconds: 3600, max_memory_bytes: 5 };
    let mut cache = QueryCache::new(config);
    cache.insert("a".to_string(), vec![0; 2]);
    cache.insert("b".to_string(), vec![0; 2]);
    cache.insert("c".to_string(), vec![0; 3]);
    assert_eq!(cache.len(), 2);
    assert!(cache.get_bytes("a").is_none());
    assert_eq!(cache.stats().current_memory_bytes, 5);
    cache.insert("big".to_string(), vec![0; 9]);
    assert_eq!(cache.len(), 1);
    assert_eq!(cache.get_bytes("big").map(|v| v.len()), Some(9));
}

#[test]
fn prefix_invalidation_keeps_other_keys() {
    let mut cache = QueryCache::new(CacheConfig::default());
    cache.insert("db_cpu_1".to_string(), vec![1]);
    cache.insert("db_mem_1".to_string(), vec![2]);
    cache.insert("db_cpu_2".to_string(), vec![3]);
    cache.invalidate_prefix("db_cpu");
    assert_eq!(cache.len(), 1);
    assert_eq!(cache.get_bytes("db_mem_1"), Some(vec![2]));
    let stats = cache.stats();
    assert_eq!(stats.current_entries, 1);
    assert_eq!(stats.current_memory_bytes, 1);
}

#[test]
fn replacing_a_key_keeps_one_entry() {
    let mut cache = QueryCache::new(CacheConfig::default());
    cache.insert("k".to_string(), vec![1, 2]);
    cache.insert("k".to_string(), vec![3]);
    assert_eq!(cache.len(), 1);
    assert_eq!(cache.get_bytes("k"), Some(vec![3]));
    assert_eq!(cache.stats().insertions, 2);
}

#[test]
fn cache_key_renders_negative_bounds() {
    assert_eq!(generate_cache_key("d", "m", "q", (-5, 7)), "d_m_q_-5_7");
}

#[test]
fn test_cache_lookup_by_age() {
    let mut cache = QueryCache::new(CacheConfig { max_entries: 10, ttl_seconds: 2, max_memory_bytes: 1000 });
    cache.insert("k".to_string(), vec![1, 2]);
    assert_eq!(cache.get_bytes_aged("k", 2_000_000_000), Some(vec![1, 2]));
    assert_eq!(cache.stats().hits, 1);
    assert_eq!(cache.get_bytes_aged("k", 2_000_000_001), None);
    assert_eq!(cache.stats().misses, 1);
    assert_eq!(cache.len(), 0);
    assert_eq!(cache.get_bytes_aged("k", 0), None);
}
