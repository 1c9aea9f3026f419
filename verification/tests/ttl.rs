use opengemini_engine::ttl::TtlManager;
use std::time::{SystemTime, UNIX_EPOCH};

#[test]
fn test_ttl_manager_new() {
    let ttl = TtlManager::new(3600);
    assert_eq!(ttl.default_ttl_seconds, 3600);
}

#[test]
fn test_ttl_manager_set_table_ttl() {
    let mut ttl = TtlManager::new(3600);
    ttl.set_table_ttl("cpu", 7200);
    assert_eq!(ttl.get_ttl_seconds("cpu"), 7200);
    assert_eq!(ttl.get_ttl_seconds("memory"), 3600);
}

#[test]
fn test_ttl_manager_zero_ttl() {
    let ttl = TtlManager::new(0);
    let now = SystemTime::now().duration_since(UNIX_EPOCH).unwrap().as_secs() as i64;
    assert!(!ttl.is_expired("test", now * 1_000_000_000));
}

#[test]
fn test_get_expired_threshold_zero_ttl() {
    let ttl = TtlManager::new(0);
    assert_eq!(ttl.get_expired_threshold("test"), 0);
}

#[test]
fn ttl_set_twice_keeps_the_last() {
    let mut ttl = TtlManager::new(10);
    ttl.set_table_ttl("cpu", 20);
    ttl.set_table_ttl("cpu", 30);
    ttl.set_table_ttl("mem", 40);
    assert_eq!(ttl.get_ttl_seconds("cpu"), 30);
    assert_eq!(ttl.get_ttl_seconds("mem"), 40);
    assert_eq!(ttl.get_ttl_seconds("disk"), 10);
}

#[test]
fn ttl_expiry_at_a_given_moment() {
    let ttl = TtlManager::new(100);
    // 1000 s after the epoch; a timestamp at 899 s is 101 s old.
    assert!(ttl.is_expired_at("t", 899_000_000_000, 1000));
    // exactly 100 s old is not expired.
    assert!(!ttl.is_expired_at("t", 900_000_000_000, 1000));
    // the timestamp is cut toward zero to whole seconds
    assert!(!ttl.is_expired_at("t", 900_999_999_999, 1000));
    // a negative timestamp: -1.5 s is cut to -1 s, age 1001 s
    assert!(ttl.is_expired_at("t", -1_500_000_000, 1000));
}

#[test]
fn ttl_threshold_at_a_given_moment() {
    let ttl = TtlManager::new(2);
    assert_eq!(ttl.get_expired_threshold_at("t", 5_000_000_000), 3_000_000_000);
    let forever = TtlManager::new(0);
    assert_eq!(forever.get_expired_threshold_at("t", 5_000_000_000), 0);
}

#[test]
fn ttl_filter_keeps_all_or_none() {
    let ttl = TtlManager::new(2);
    let mut rows = vec![1, 2, 3];
    ttl.filter_expired_rows_at("t", &mut rows, &[3_500_000_000, 0], 5_000_000_000);
    assert_eq!(rows, vec![1, 2, 3]);
    ttl.filter_expired_rows_at("t", &mut rows, &[3_000_000_000], 5_000_000_000);
    assert!(rows.is_empty());
    let forever = TtlManager::new(0);
    let mut rows = vec![7];
    forever.filter_expired_rows_at("t", &mut rows, &[], 5_000_000_000);
    assert_eq!(rows, vec![7]);
}
