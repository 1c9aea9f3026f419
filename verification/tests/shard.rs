use opengemini_engine::shard::{ShardInfo, ShardManager, ShardMapper, ShardStatus};

fn temp_dir() -> String {
    "/tmp/opengemini-shards".to_string()
}

#[test]
fn test_shard_status() {
    assert_eq!(ShardStatus::Active, ShardStatus::Active);
    assert_eq!(ShardStatus::Inactive, ShardStatus::Inactive);
    assert_eq!(ShardStatus::ReadOnly, ShardStatus::ReadOnly);
    assert_eq!(ShardStatus::Migrating, ShardStatus::Migrating);
    assert_eq!(ShardStatus::Spliting, ShardStatus::Spliting);
}

#[test]
fn mod_test_shard_info_new() {
    let info = ShardInfo::new(1, "testdb", "rp1", "/data".to_string());
    assert_eq!(info.id, 1);
    assert_eq!(info.database, "testdb");
    assert_eq!(info.retention_policy, "rp1");
    assert_eq!(info.status, ShardStatus::Active);
    assert_eq!(info.replica_count, 1);
    assert_eq!(info.shard_duration_seconds, 3600 * 24 * 7);
    assert_eq!(info.tier, 0);
    assert_eq!(info.size_bytes, 0);
    assert_eq!(info.row_count, 0);
}

#[test]
fn test_shard_info_with_options() {
    let info = ShardInfo::new(1, "testdb", "rp1", "/data".to_string())
        .with_replica_count(3)
        .with_shard_duration(3600)
        .with_status(ShardStatus::ReadOnly)
        .with_tier(1)
        .with_size(1024)
        .with_row_count(100);

    assert_eq!(info.replica_count, 3);
    assert_eq!(info.shard_duration_seconds, 3600);
    assert_eq!(info.status, ShardStatus::ReadOnly);
    assert_eq!(info.tier, 1);
    assert_eq!(info.size_bytes, 1024);
    assert_eq!(info.row_count, 100);
}

#[test]
fn mod_test_shard_info_is_active() {
    let info = ShardInfo::new(1, "testdb", "rp1", "/data".to_string());
    assert!(info.is_active());
    assert!(!info.is_readonly());
    assert!(!info.is_migrating());
}

#[test]
fn mod_test_shard_info_time_range() {
    let info = ShardInfo::new(1, "testdb", "rp1", "/data".to_string()).with_shard_duration(3600);
    let (start, end) = info.time_range();
    assert_eq!(start, 3600);
    assert_eq!(end, 7200);
}

#[test]
fn mod_test_shard_mapper_new() {
    let mapper = ShardMapper::new(3600, 1);
    assert_eq!(mapper.get_shard_duration(), 3600);
    assert_eq!(mapper.get_replica_count(), 1);
    assert_eq!(mapper.get_virtual_nodes(), 150);
}

#[test]
fn test_shard_mapper_with_virtual_nodes() {
    let mapper = ShardMapper::new(3600, 1).with_virtual_nodes(300);
    assert_eq!(mapper.get_virtual_nodes(), 300);
}

#[test]
fn mod_test_shard_mapper_map_shard() {
    let mapper = ShardMapper::new(3600, 1);

    assert_eq!(mapper.map_shard(0), 0);
    assert_eq!(mapper.map_shard(3600), 1);
    assert_eq!(mapper.map_shard(7200), 2);
    assert_eq!(mapper.map_shard(3600000), 1000);
}

#[test]
fn test_shard_mapper_contains() {
    let mapper = ShardMapper::new(3600, 1);
    assert!(mapper.contains(0, 0));
    assert!(mapper.contains(1, 3600));
}

#[test]
fn mod_test_shard_mapper_get_shard_path() {
    let mapper = ShardMapper::new(3600, 1);
    let data_dir = "/data".to_string();
    let path = mapper.get_shard_path(&data_dir, "testdb", "rp1", 1);

    assert_eq!(path, "/data/testdb/rp1/1");
}

#[test]
fn test_shard_mapper_map_shard_to_node() {
    let mapper = ShardMapper::new(3600, 1);
    let nodes = vec!["node1".to_string(), "node2".to_string(), "node3".to_string()];

    let result = mapper.map_shard_to_node(0, &nodes);
    assert!(result.is_some());
}

#[test]
fn test_shard_mapper_calculate_shard_key() {
    let mapper = ShardMapper::new(3600, 1);
    let key = mapper.calculate_shard_key("testdb", "rp1", 7200);
    assert_eq!(key, "testdb/rp1/2");
}

#[test]
fn mod_test_shard_manager_new() {
    let manager = ShardManager::new(temp_dir());
    assert_eq!(manager.shard_count(), 0);
}

#[test]
fn mod_test_shard_manager_create_shard() {
    let mut manager = ShardManager::new(temp_dir());

    let _shard = manager.create_shard(1, "testdb", "rp1").unwrap();
    assert_eq!(manager.shard_count(), 1);

    let retrieved = manager.get_shard(1);
    assert!(retrieved.is_some());
    assert_eq!(retrieved.unwrap().id, 1);
}

#[test]
fn test_shard_manager_get_nonexistent_shard() {
    let manager = ShardManager::new(temp_dir());

    let shard = manager.get_shard(999);
    assert!(shard.is_none());
}

#[test]
fn mod_test_shard_manager_remove_shard() {
    let mut manager = ShardManager::new(temp_dir());

    manager.create_shard(1, "testdb", "rp1").unwrap();
    assert_eq!(manager.shard_count(), 1);

    let removed = manager.remove_shard(1);
    assert!(removed);
    assert_eq!(manager.shard_count(), 0);
}

#[test]
fn mod_test_shard_manager_get_all_shards() {
    let mut manager = ShardManager::new(temp_dir());

    manager.create_shard(1, "testdb", "rp1").unwrap();
    manager.create_shard(2, "testdb", "rp1").unwrap();
    manager.create_shard(3, "testdb", "rp1").unwrap();

    let all = manager.get_all_shards();
    assert_eq!(all.len(), 3);
    assert!(all.contains(&1));
    assert!(all.contains(&2));
    assert!(all.contains(&3));
}

#[test]
fn mod_test_shard_manager_get_shards_by_db() {
    let mut manager = ShardManager::new(temp_dir());

    manager.create_shard(1, "testdb1", "rp1").unwrap();
    manager.create_shard(2, "testdb1", "rp2").unwrap();
    manager.create_shard(3, "testdb2", "rp1").unwrap();

    let shards = manager.get_shards_by_db("testdb1");
    assert_eq!(shards.len(), 2);
}

#[test]
fn mod_test_shard_manager_get_shards_by_rp() {
    let mut manager = ShardManager::new(temp_dir());

    manager.create_shard(1, "testdb", "rp1").unwrap();
    manager.create_shard(2, "testdb", "rp2").unwrap();
    manager.create_shard(3, "testdb", "rp1").unwrap();

    let shards = manager.get_shards_by_rp("testdb", "rp1");
    assert_eq!(shards.len(), 2);
}

#[test]
fn test_shard_manager_update_status() {
    let mut manager = ShardManager::new(temp_dir());

    manager.create_shard(1, "testdb", "rp1").unwrap();

    let updated = manager.update_shard_status(1, ShardStatus::ReadOnly);
    assert!(updated);

    let shard = manager.get_shard(1).unwrap();
    assert_eq!(shard.status, ShardStatus::ReadOnly);
}

#[test]
fn test_shard_manager_update_metadata() {
    let mut manager = ShardManager::new(temp_dir());

    manager.create_shard(1, "testdb", "rp1").unwrap();

    let updated = manager.update_shard_metadata(1, 1024, 100);
    assert!(updated);

    let shard = manager.get_shard(1).unwrap();
    assert_eq!(shard.size_bytes, 1024);
    assert_eq!(shard.row_count, 100);
}

#[test]
fn test_shard_manager_get_shard_stats() {
    let mut manager = ShardManager::new(temp_dir());

    manager.create_shard(1, "testdb", "rp1").unwrap();
    manager.create_shard(2, "testdb", "rp1").unwrap();
    manager.update_shard_metadata(1, 1024, 100);
    manager.update_shard_metadata(2, 2048, 200);

    let stats = manager.get_shard_stats();
    assert_eq!(stats.total_shards, 2);
    assert_eq!(stats.total_size_bytes, 3072);
    assert_eq!(stats.total_rows, 300);
}

#[test]
fn test_shard_stats_average_shard_size() {
    let mut manager = ShardManager::new(temp_dir());

    manager.create_shard(1, "testdb", "rp1").unwrap();
    manager.create_shard(2, "testdb", "rp1").unwrap();
    manager.update_shard_metadata(1, 1024, 100);
    manager.update_shard_metadata(2, 2048, 200);

    let stats = manager.get_shard_stats();
    assert_eq!(stats.average_shard_size(), 1536);
}

#[test]
fn test_shard_manager_find_shard_by_time() {
    let mut manager = ShardManager::new(temp_dir());

    manager.create_shard(1, "testdb", "rp1").unwrap();
    manager.create_shard(2, "testdb", "rp1").unwrap();

    let shard = manager.find_shard_by_time("testdb", "rp1", 700000);
    assert!(shard.is_some());
    assert_eq!(shard.unwrap().id, 1);
}

#[test]
fn test_shard_manager_split_shard() {
    let mut manager = ShardManager::new(temp_dir());

    manager.create_shard(1, "testdb", "rp1").unwrap();
    manager.update_shard_metadata(1, 1024, 100);

    let result = manager.split_shard(1, 7200);
    assert!(result.is_ok());
    let split_result = result.unwrap();
    assert!(split_result.is_some());

    let (original, new_shard) = split_result.unwrap();
    assert_eq!(original.id, 1);
    assert!(new_shard.id > 1000000);
}

#[test]
fn test_shard_info_active_status() {
    let mut manager = ShardManager::new(temp_dir());

    manager.create_shard(1, "testdb", "rp1").unwrap();
    let shard = manager.get_shard(1).unwrap();

    assert!(shard.is_active());
    assert!(!shard.is_readonly());
    assert!(!shard.is_migrating());
}

#[test]
fn test_shard_info_readonly_status() {
    let info = ShardInfo::new(1, "testdb", "rp1", "/tmp/test".to_string()).with_status(ShardStatus::ReadOnly);

    assert!(!info.is_active());
    assert!(info.is_readonly());
}

#[test]
fn test_shard_info_migrating_status() {
    let info = ShardInfo::new(1, "testdb", "rp1", "/tmp/test".to_string()).with_status(ShardStatus::Migrating);

    assert!(info.is_migrating());
}

#[test]
fn test_shard_info_update_metadata() {
    let mut info = ShardInfo::new(1, "testdb", "rp1", "/tmp/test".to_string());

    let old_updated_at = info.updated_at;
    info.update_metadata();

    assert!(info.updated_at >= old_updated_at);
}

#[test]
fn mod_test_shard_info_with_replica_count() {
    let info = ShardInfo::new(1, "testdb", "rp1", "/tmp/test".to_string()).with_replica_count(3);

    assert_eq!(info.replica_count, 3);
}

#[test]
fn mod_test_shard_info_with_tier() {
    let info = ShardInfo::new(1, "testdb", "rp1", "/tmp/test".to_string()).with_tier(2);

    assert_eq!(info.tier, 2);
}

#[test]
fn test_shard_info_with_size_and_row_count() {
    let info = ShardInfo::new(1, "testdb", "rp1", "/tmp/test".to_string())
        .with_size(1024 * 1024)
        .with_row_count(10000);

    assert_eq!(info.size_bytes, 1024 * 1024);
    assert_eq!(info.row_count, 10000);
}

#[test]
fn test_shard_info_shard_duration() {
    let info = ShardInfo::new(1, "testdb", "rp1", "/tmp/test".to_string()).with_shard_duration(3600 * 24);

    assert_eq!(info.shard_duration_seconds, 3600 * 24);
}

#[test]
fn shard_test_test_shard_info_new() {
    let path = "/tmp/test_shard".to_string();
    let info = ShardInfo::new(1, "testdb", "rp1", path.clone());

    assert_eq!(info.id, 1);
    assert_eq!(info.database, "testdb");
    assert_eq!(info.retention_policy, "rp1");
    assert_eq!(info.path, path);
    assert_eq!(info.status, ShardStatus::Active);
    assert_eq!(info.replica_count, 1);
    assert_eq!(info.shard_duration_seconds, 3600 * 24 * 7);
    assert_eq!(info.tier, 0);
    assert_eq!(info.size_bytes, 0);
    assert_eq!(info.row_count, 0);
}

#[test]
fn shard_test_test_shard_info_with_replica_count() {
    let info = ShardInfo::new(1, "testdb", "rp1", "/tmp/test".to_string());
    let info = info.with_replica_count(3);

    assert_eq!(info.replica_count, 3);
}

#[test]
fn test_shard_info_with_shard_duration() {
    let info = ShardInfo::new(1, "testdb", "rp1", "/tmp/test".to_string());
    let info = info.with_shard_duration(86400);

    assert_eq!(info.shard_duration_seconds, 86400);
}

#[test]
fn test_shard_info_with_status() {
    let info = ShardInfo::new(1, "testdb", "rp1", "/tmp/test".to_string());
    let info = info.with_status(ShardStatus::ReadOnly);

    assert_eq!(info.status, ShardStatus::ReadOnly);
}

#[test]
fn shard_test_test_shard_info_with_tier() {
    let info = ShardInfo::new(1, "testdb", "rp1", "/tmp/test".to_string());
    let info = info.with_tier(2);

    assert_eq!(info.tier, 2);
}

#[test]
fn test_shard_info_with_size() {
    let info = ShardInfo::new(1, "testdb", "rp1", "/tmp/test".to_string());
    let info = info.with_size(1024 * 1024);

    assert_eq!(info.size_bytes, 1024 * 1024);
}

#[test]
fn test_shard_info_with_row_count() {
    let info = ShardInfo::new(1, "testdb", "rp1", "/tmp/test".to_string());
    let info = info.with_row_count(1000);

    assert_eq!(info.row_count, 1000);
}

#[test]
fn shard_test_test_shard_info_is_active() {
    let info = ShardInfo::new(1, "testdb", "rp1", "/tmp/test".to_string());
    assert!(info.is_active());

    let readonly = info.with_status(ShardStatus::ReadOnly);
    assert!(!readonly.is_active());
}

#[test]
fn test_shard_info_is_readonly() {
    let info = ShardInfo::new(1, "testdb", "rp1", "/tmp/test".to_string());
    assert!(!info.is_readonly());

    let readonly = info.with_status(ShardStatus::ReadOnly);
    assert!(readonly.is_readonly());
}

#[test]
fn test_shard_info_is_migrating() {
    let info = ShardInfo::new(1, "testdb", "rp1", "/tmp/test".to_string());
    assert!(!info.is_migrating());

    let migrating = info.with_status(ShardStatus::Migrating);
    assert!(migrating.is_migrating());
}

#[test]
fn shard_test_test_shard_info_time_range() {
    let info = ShardInfo::new(1, "testdb", "rp1", "/tmp/test".to_string());
    let (start, end) = info.time_range();

    let expected_start = 1 * 3600 * 24 * 7 as i64;
    let expected_end = expected_start + 3600 * 24 * 7 as i64;
    assert_eq!(start, expected_start);
    assert_eq!(end, expected_end);
}

#[test]
fn shard_test_test_shard_manager_new() {
    let data_dir = temp_dir();
    let manager = ShardManager::new(data_dir.clone());

    assert_eq!(manager.get_all_shards().len(), 0);
    assert_eq!(manager.shard_count(), 0);
}

#[test]
fn shard_test_test_shard_manager_create_shard() {
    let data_dir = temp_dir();
    let mut manager = ShardManager::new(data_dir.clone());

    let shard = manager.create_shard(1, "testdb", "rp1").unwrap();

    assert_eq!(shard.id, 1);
    assert_eq!(shard.database, "testdb");
    assert_eq!(shard.retention_policy, "rp1");
    assert_eq!(manager.shard_count(), 1);
}

#[test]
fn test_shard_manager_get_shard() {
    let mut manager = ShardManager::new(temp_dir());

    manager.create_shard(1, "testdb", "rp1").unwrap();
    manager.create_shard(2, "testdb", "rp1").unwrap();

    let shard1 = manager.get_shard(1);
    assert!(shard1.is_some());
    assert_eq!(shard1.unwrap().id, 1);

    let nonexistent = manager.get_shard(999);
    assert!(nonexistent.is_none());
}

#[test]
fn shard_test_test_shard_manager_get_all_shards() {
    let mut manager = ShardManager::new(temp_dir());

    manager.create_shard(1, "testdb", "rp1").unwrap();
    manager.create_shard(2, "testdb", "rp1").unwrap();
    manager.create_shard(3, "testdb2", "rp1").unwrap();

    let all_shards = manager.get_all_shards();
    assert_eq!(all_shards.len(), 3);
    assert!(all_shards.contains(&1));
    assert!(all_shards.contains(&2));
    assert!(all_shards.contains(&3));
}

#[test]
fn shard_test_test_shard_manager_remove_shard() {
    let mut manager = ShardManager::new(temp_dir());

    manager.create_shard(1, "testdb", "rp1").unwrap();
    manager.create_shard(2, "testdb", "rp1").unwrap();

    assert_eq!(manager.shard_count(), 2);

    let removed = manager.remove_shard(1);
    assert!(removed);
    assert_eq!(manager.shard_count(), 1);
    assert!(manager.get_shard(1).is_none());
    assert!(manager.get_shard(2).is_some());

    let not_removed = manager.remove_shard(999);
    assert!(!not_removed);
}

#[test]
fn shard_test_test_shard_manager_get_shards_by_db() {
    let mut manager = ShardManager::new(temp_dir());

    manager.create_shard(1, "testdb", "rp1").unwrap();
    manager.create_shard(2, "testdb", "rp1").unwrap();
    manager.create_shard(3, "otherdb", "rp1").unwrap();

    let testdb_shards = manager.get_shards_by_db("testdb");
    assert_eq!(testdb_shards.len(), 2);

    let otherdb_shards = manager.get_shards_by_db("otherdb");
    assert_eq!(otherdb_shards.len(), 1);

    let nonexistent = manager.get_shards_by_db("nonexistent");
    assert_eq!(nonexistent.len(), 0);
}

#[test]
fn shard_test_test_shard_manager_get_shards_by_rp() {
    let mut manager = ShardManager::new(temp_dir());

    manager.create_shard(1, "testdb", "rp1").unwrap();
    manager.create_shard(2, "testdb", "rp2").unwrap();
    manager.create_shard(3, "testdb", "rp1").unwrap();

    let rp1_shards = manager.get_shards_by_rp("testdb", "rp1");
    assert_eq!(rp1_shards.len(), 2);

    let rp2_shards = manager.get_shards_by_rp("testdb", "rp2");
    assert_eq!(rp2_shards.len(), 1);

    let nonexistent = manager.get_shards_by_rp("testdb", "nonexistent");
    assert_eq!(nonexistent.len(), 0);
}

#[test]
fn test_shard_manager_update_shard_status() {
    let mut manager = ShardManager::new(temp_dir());

    manager.create_shard(1, "testdb", "rp1").unwrap();

    let updated = manager.update_shard_status(1, ShardStatus::ReadOnly);
    assert!(updated);

    let shard = manager.get_shard(1).unwrap();
    assert_eq!(shard.status, ShardStatus::ReadOnly);

    let not_updated = manager.update_shard_status(999, ShardStatus::ReadOnly);
    assert!(!not_updated);
}

#[test]
fn test_shard_status_variants() {
    assert_eq!(ShardStatus::Active, ShardStatus::Active);
    assert_eq!(ShardStatus::Inactive, ShardStatus::Inactive);
    assert_eq!(ShardStatus::ReadOnly, ShardStatus::ReadOnly);
    assert_eq!(ShardStatus::Migrating, ShardStatus::Migrating);
    assert_eq!(ShardStatus::Spliting, ShardStatus::Spliting);
}

#[test]
fn shard_test_test_shard_mapper_new() {
    let mapper = ShardMapper::new(3600, 2);
    assert_eq!(mapper.get_virtual_nodes(), 150);
    assert_eq!(mapper.get_replica_count(), 2);
    assert_eq!(mapper.get_shard_duration(), 3600);
}

#[test]
fn shard_test_test_shard_mapper_map_shard() {
    let mapper = ShardMapper::new(10, 1);
    let nodes = vec!["node1".to_string(), "node2".to_string()];

    let node = mapper.map_shard_to_node(1, &nodes);
    assert!(node.is_some());

    let nonexistent = mapper.map_shard_to_node(1, &[]);
    assert!(nonexistent.is_none());
}

#[test]
fn shard_test_test_shard_mapper_get_shard_path() {
    let mapper = ShardMapper::new(10, 1);
    let data_dir = "/tmp/data".to_string();

    let path = mapper.get_shard_path(&data_dir, "testdb", "rp1", 1);
    assert_eq!(path, "/tmp/data/testdb/rp1/1");
}

#[test]
fn test_shard_mapper_consistent_hash() {
    let mapper = ShardMapper::new(100, 1);

    let node1 = mapper.map_shard_to_node(1, &["n1".to_string(), "n2".to_string()]);
    let node2 = mapper.map_shard_to_node(1, &["n1".to_string(), "n2".to_string()]);

    assert_eq!(node1, node2);
}

#[test]
fn test_shard_mapper_different_shards_different_nodes() {
    let mapper = ShardMapper::new(10, 1);
    let nodes = vec!["node1".to_string(), "node2".to_string(), "node3".to_string()];

    let mut results = Vec::new();
    for i in 0..100 {
        if let Some(node) = mapper.map_shard_to_node(i, &nodes) {
            results.push(node);
        }
    }

    assert!(!results.is_empty());
}

#[test]
fn map_shard_to_node_picks_id_modulo_node_count() {
    let mapper = ShardMapper::new(10, 1);
    let nodes = vec!["a".to_string(), "b".to_string(), "c".to_string()];
    assert_eq!(mapper.map_shard_to_node(4, &nodes), Some("b".to_string()));
    assert_eq!(mapper.map_shard_to_node(6, &nodes), Some("a".to_string()));
}

#[test]
fn map_shard_uses_magnitude_of_negative_timestamps() {
    let mapper = ShardMapper::new(3600, 1);
    assert_eq!(mapper.map_shard(-7200), 2);
    assert_eq!(mapper.map_shard(-3599), 0);
    assert_eq!(mapper.calculate_shard_key("db", "rp", -7200), "db/rp/2");
}

#[test]
fn split_and_migrate_errors() {
    let mut manager = ShardManager::new(temp_dir());
    assert!(manager.split_shard(5, 0).unwrap().is_none());
    manager.create_shard(5, "db", "rp").unwrap();
    manager.update_shard_status(5, ShardStatus::ReadOnly);
    match manager.split_shard(5, 0) {
        Err(opengemini_engine::error::Error::InvalidArgument(m)) => {
            assert_eq!(m, "Shard 5 is not in a splittable state")
        }
        _ => panic!("expected an error"),
    }
    match manager.migrate_shard(9, "node2") {
        Err(opengemini_engine::error::Error::NotFound(m)) => assert_eq!(m, "Shard 9 not found"),
        _ => panic!("expected an error"),
    }
    match manager.migrate_shard(5, "node2") {
        Err(opengemini_engine::error::Error::InvalidArgument(m)) => assert_eq!(m, "Shard 5 is not active"),
        _ => panic!("expected an error"),
    }
}

#[test]
fn split_halves_size_and_registers_both() {
    let mut manager = ShardManager::new("/data".to_string());
    manager.create_shard(1, "db", "rp").unwrap();
    manager.update_shard_metadata(1, 1001, 11);
    let (a, b) = manager.split_shard(1, 0).unwrap().unwrap();
    assert_eq!(a.size_bytes, 500);
    assert_eq!(b.size_bytes, 500);
    assert_eq!(b.row_count, 5);
    assert_eq!(b.id, 1000001);
    assert_eq!(b.path, "/data/db/rp/1000001");
    assert_eq!(manager.shard_count(), 2);
    assert!(manager.migrate_shard(1, "n").unwrap());
    assert_eq!(manager.get_shard(1).unwrap().status, ShardStatus::Migrating);
    let stats = manager.get_shard_stats();
    assert_eq!(stats.shard_count_by_status("Migrating"), 1);
    assert_eq!(stats.shard_count_by_status("Active"), 1);
    assert_eq!(stats.shard_count_by_status("Bogus"), 0);
}

#[test]
fn joining_an_absolute_component_replaces_the_path() {
    let mapper = ShardMapper::new(10, 1);
    assert_eq!(mapper.get_shard_path("/data/", "db", "/abs", 3), "/abs/3");
}
