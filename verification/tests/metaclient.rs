use opengemini_engine::metaclient::{DatabaseInfo, MetaClient, MetaClientStub, NodeInfo, ShardMapping};

#[test]
fn test_node_info_new() {
    let node = NodeInfo::new(1, "127.0.0.1:8080".to_string());

    assert_eq!(node.id, 1);
    assert!(!node.is_leader);
    assert_eq!(node.term, 0);
}

#[test]
fn test_node_info_with_options() {
    let node = NodeInfo::new(1, "127.0.0.1:8080".to_string())
        .with_leader(true)
        .with_term(5);

    assert!(node.is_leader);
    assert_eq!(node.term, 5);
}

#[test]
fn test_shard_mapping_new() {
    let mapping = ShardMapping::new(1, 100, "testdb", "rp1", 0, 3600);

    assert_eq!(mapping.shard_id, 1);
    assert_eq!(mapping.node_id, 100);
    assert_eq!(mapping.database, "testdb");
    assert_eq!(mapping.retention_policy, "rp1");
}

#[test]
fn test_meta_client_stub_new() {
    let peers = vec![NodeInfo::new(1, "127.0.0.1:8080".to_string())];
    let stub = MetaClientStub::new(1, peers);

    assert_eq!(stub.node_id(), 1);
    assert!(stub.peers().len() == 1);
}

#[test]
fn test_meta_client_stub_create_database() {
    let peers = vec![NodeInfo::new(1, "127.0.0.1:8080".to_string())];
    let mut stub = MetaClientStub::new(1, peers);

    let db = stub.create_database("testdb").unwrap();
    assert_eq!(db.name, "testdb");
}

#[test]
fn test_meta_client_stub_get_database() {
    let peers = vec![NodeInfo::new(1, "127.0.0.1:8080".to_string())];
    let mut stub = MetaClientStub::new(1, peers);

    stub.create_database("testdb").unwrap();

    let db = stub.get_database("testdb").unwrap();
    assert!(db.is_some());
    assert_eq!(db.unwrap().name, "testdb");
}

#[test]
fn test_meta_client_stub_create_retention_policy() {
    let peers = vec![NodeInfo::new(1, "127.0.0.1:8080".to_string())];
    let mut stub = MetaClientStub::new(1, peers);

    stub.create_retention_policy("testdb", "rp1", 86400, 1).unwrap();

    let rp = stub.get_retention_policy("testdb", "rp1").unwrap();
    assert!(rp.is_some());
    assert_eq!(rp.unwrap().name, "rp1");
}

#[test]
fn test_meta_client_stub_update_shard_readers() {
    let peers = vec![NodeInfo::new(1, "127.0.0.1:8080".to_string())];
    let mut stub = MetaClientStub::new(1, peers);

    let mapping = ShardMapping::new(1, 100, "testdb", "rp1", 0, 3600);
    stub.update_shard_readers(&mapping).unwrap();

    let owner = stub.get_shard_owner(1).unwrap();
    assert!(owner.is_some());
    assert_eq!(owner.unwrap().node_id, 100);
}

#[test]
fn test_meta_client_stub_get_shard_mappings() {
    let peers = vec![NodeInfo::new(1, "127.0.0.1:8080".to_string())];
    let mut stub = MetaClientStub::new(1, peers);

    let mapping = ShardMapping::new(1, 100, "testdb", "rp1", 0, 3600);
    stub.update_shard_readers(&mapping).unwrap();

    let mappings = stub.get_shard_mappings("testdb", "rp1", 100, 3500).unwrap();
    assert_eq!(mappings.len(), 1);
}

#[test]
fn meta_client_leader_and_replacements() {
    let peers = vec![
        NodeInfo::new(1, "a".to_string()),
        NodeInfo::new(2, "b".to_string()).with_leader(true),
        NodeInfo::new(3, "c".to_string()).with_leader(true),
    ];
    let mut stub = MetaClientStub::new(7, peers);
    assert_eq!(stub.leader().unwrap().id, 2);
    assert!(stub.is_leader());
    assert_eq!(stub.acquire_node().unwrap(), 7);
    assert_eq!(stub.node().unwrap().addr, "127.0.0.1:8080");

    stub.update_shard_readers(&ShardMapping::new(1, 100, "db", "rp", 0, 10)).unwrap();
    stub.update_shard_readers(&ShardMapping::new(1, 200, "db", "rp", 0, 10)).unwrap();
    stub.update_shard_readers(&ShardMapping::new(2, 300, "db", "rp", 20, 30)).unwrap();
    let found = stub.get_shard_mappings("db", "rp", 5, 15).unwrap();
    assert_eq!(found.len(), 1);
    assert_eq!(found[0].node_id, 200);
    assert!(stub.get_shard_owner(3).unwrap().is_none());

    stub.create_retention_policy("db", "rp", 10, 1).unwrap();
    stub.create_retention_policy("db", "rp", 20, 3).unwrap();
    let rp = stub.get_retention_policy("db", "rp").unwrap().unwrap();
    assert_eq!(rp.duration_seconds, 20);
    assert_eq!(rp.replica_count, 3);
    assert!(stub.get_retention_policy("other", "rp").unwrap().is_none());

    let stub = stub.with_database(DatabaseInfo { name: "x".to_string(), shard_groups: vec![] });
    let mut names = stub.list_databases().unwrap();
    names.sort();
    assert_eq!(names, vec!["x".to_string()]);
    assert!(!MetaClientStub::new(1, vec![]).is_leader());
}
