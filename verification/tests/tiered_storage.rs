use opengemini_engine::tiered_storage::{StorageTier, TierConfig, TieredStorageManager};

#[test]
fn test_storage_tier_from_u8() {
    assert_eq!(StorageTier::from_u8(0), StorageTier::Hot);
    assert_eq!(StorageTier::from_u8(1), StorageTier::Warm);
    assert_eq!(StorageTier::from_u8(2), StorageTier::Cold);
    assert_eq!(StorageTier::from_u8(255), StorageTier::Hot);
}

#[test]
fn test_storage_tier_as_str() {
    assert_eq!(StorageTier::Hot.as_str(), "hot");
    assert_eq!(StorageTier::Warm.as_str(), "warm");
    assert_eq!(StorageTier::Cold.as_str(), "cold");
}

#[test]
fn test_storage_tier_next() {
    assert_eq!(StorageTier::Hot.next(), Some(StorageTier::Warm));
    assert_eq!(StorageTier::Warm.next(), Some(StorageTier::Cold));
    assert_eq!(StorageTier::Cold.next(), None);
}

#[test]
fn test_tier_config_default() {
    let config = TierConfig::default();
    assert_eq!(config.hot_duration_seconds, 3600);
    assert_eq!(config.warm_duration_seconds, 86400 * 7);
    assert!(!config.cold_enabled);
    assert!(config.cold_path.is_none());
}

#[test]
fn test_tier_config_new() {
    let config = TierConfig::new(7200, 86400 * 14);
    assert_eq!(config.hot_duration_seconds, 7200);
    assert_eq!(config.warm_duration_seconds, 86400 * 14);
}

#[test]
fn test_tier_config_with_options() {
    let config = TierConfig::new(3600, 86400)
        .with_cold_enabled(true)
        .with_cold_path("/cold/storage".to_string());

    assert!(config.cold_enabled);
    assert_eq!(config.cold_path, Some("/cold/storage".to_string()));
}

#[test]
fn test_tier_config_get_tier_for_timestamp_hot() {
    let config = TierConfig::new(3600, 86400);
    let now = 100000;
    let timestamp = now - 1000;

    assert_eq!(config.get_tier_for_timestamp(timestamp, now), StorageTier::Hot);
}

#[test]
fn test_tier_config_get_tier_for_timestamp_warm() {
    let config = TierConfig::new(3600, 86400);
    let now = 100000;
    let timestamp = now - 7200;

    assert_eq!(config.get_tier_for_timestamp(timestamp, now), StorageTier::Warm);
}

#[test]
fn test_tier_config_get_tier_for_timestamp_cold() {
    let config = TierConfig::new(3600, 86400);
    let now = 100000;
    let timestamp = now - 100000;

    assert_eq!(config.get_tier_for_timestamp(timestamp, now), StorageTier::Cold);
}

#[test]
fn test_tier_config_is_tier_expired() {
    let config = TierConfig::new(3600, 86400);
    let now = 100000;

    assert!(!config.is_tier_expired(now - 1000, now, StorageTier::Hot));
    assert!(!config.is_tier_expired(now - 3600, now, StorageTier::Hot));
    assert!(!config.is_tier_expired(now - 7200, now, StorageTier::Warm));
    assert!(config.is_tier_expired(now - 100000, now, StorageTier::Warm));
    assert!(config.is_tier_expired(now - 1000, now, StorageTier::Cold));
}

#[test]
fn test_tiered_storage_manager_get_tier_path() {
    let data_dir = "/data".to_string();
    let config = TierConfig::default();
    let manager = TieredStorageManager::new(data_dir.clone(), config);

    let hot_path = manager.get_tier_path(StorageTier::Hot, "db1", "rp1", 1);
    assert_eq!(hot_path, "/data/db1/rp1/1");

    let warm_path = manager.get_tier_path(StorageTier::Warm, "db1", "rp1", 1);
    assert_eq!(warm_path, "/data/db1/rp1/1");
}

#[test]
fn test_tiered_storage_manager_get_tier_path_cold() {
    let data_dir = "/data".to_string();
    let config = TierConfig::new(3600, 86400).with_cold_path("/cold".to_string());
    let manager = TieredStorageManager::new(data_dir, config);

    let cold_path = manager.get_tier_path(StorageTier::Cold, "db1", "rp1", 1);
    assert_eq!(cold_path, "/cold/db1/rp1/1");
}

#[test]
fn test_tiered_storage_manager_determine_tier() {
    let data_dir = "/data".to_string();
    let config = TierConfig::new(3600, 86400);
    let manager = TieredStorageManager::new(data_dir, config);

    let now = chrono::Utc::now().timestamp();
    assert_eq!(manager.determine_tier(now), StorageTier::Hot);
    assert_eq!(manager.determine_tier(now - 7200), StorageTier::Warm);
    assert_eq!(manager.determine_tier(now - 100000), StorageTier::Cold);
}

#[test]
fn test_tiered_storage_manager_should_migrate() {
    let data_dir = "/data".to_string();
    let config = TierConfig::new(3600, 86400);
    let manager = TieredStorageManager::new(data_dir, config);

    let now = chrono::Utc::now().timestamp();

    assert!(!manager.should_migrate_to_next_tier(now - 1000, StorageTier::Hot));
    assert!(manager.should_migrate_to_next_tier(now - 7200, StorageTier::Hot));
    assert!(!manager.should_migrate_to_next_tier(now - 7200, StorageTier::Warm));
    assert!(manager.should_migrate_to_next_tier(now - 100000, StorageTier::Warm));
    assert!(!manager.should_migrate_to_next_tier(now, StorageTier::Cold));
}

#[test]
fn cold_tier_without_cold_path_lives_under_data_dir() {
    let manager = TieredStorageManager::new("/data".to_string(), TierConfig::default());
    assert_eq!(manager.get_tier_path(StorageTier::Cold, "db", "rp", 9), "/data/cold/db/rp/9");
    assert!(!manager.is_cold_enabled());
    assert_eq!(manager.get_config().hot_duration_seconds, 3600);
}

#[test]
fn future_timestamps_have_huge_unsigned_age() {
    let config = TierConfig::new(3600, 86400);
    assert_eq!(config.get_tier_for_timestamp(200, 100), StorageTier::Cold);
    assert!(config.should_migrate_at(200, StorageTier::Hot, 100));
    assert!(!config.should_migrate_at(0, StorageTier::Cold, 100));
}
