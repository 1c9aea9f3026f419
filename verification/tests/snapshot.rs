use opengemini_engine::error::Error;
use opengemini_engine::snapshot::{SnapshotFile, SnapshotId, SnapshotManifest, SnapshotService};
use opengemini_engine::tssp::FileMeta;

fn metas() -> Vec<FileMeta> {
    vec![
        FileMeta { file_id: 1, min_time: 1000, max_time: 2000, size: 1024 * 1024, bloom_filter_data: None },
        FileMeta { file_id: 2, min_time: 2000, max_time: 3000, size: 2048 * 1024, bloom_filter_data: Some(vec![1, 2]) },
    ]
}

fn snap(id: u64, ts: i64) -> SnapshotFile {
    SnapshotFile { path: format!("/s/snapshot_{}", id), manifest: SnapshotManifest::new(id, ts, metas(), 3, 10) }
}

#[test]
fn snapshot_id_age() {
    let s = SnapshotId::new(1, 100, "/s".to_string());
    assert_eq!(s.age_seconds(250), 150);
}

#[test]
fn snapshot_registry_numbers_and_verifies() {
    let mut svc = SnapshotService::new("/s".to_string(), 2, 10);
    assert_eq!(svc.allocate_id(), 1);
    assert_eq!(svc.allocate_id(), 2);
    svc.insert_snapshot(snap(1, 100));
    svc.register(snap(7, 50));
    assert_eq!(svc.allocate_id(), 8);
    assert_eq!(svc.snapshot_count(), 2);
    assert_eq!(svc.verify_snapshot(1).unwrap(), true);
    match svc.verify_snapshot(3) {
        Err(Error::Snapshot(m)) => assert_eq!(m, "snapshot 3 not found"),
        _ => panic!("expected a snapshot error"),
    }
    let mut bad = snap(9, 5);
    bad.manifest.checksum ^= 1;
    svc.insert_snapshot(bad);
    assert_eq!(svc.verify_snapshot(9).unwrap(), false);
    assert_eq!(svc.get_latest_snapshot().unwrap().id, 1);
    assert_eq!(svc.list_snapshots().len(), 3);
    assert!(svc.get_snapshot(7).is_some());
    assert!(svc.delete_snapshot(7));
    assert!(!svc.delete_snapshot(7));
    assert!(svc.get_snapshot(7).is_none());
}

#[test]
fn snapshot_cleanup_drops_expired_then_oldest() {
    let mut svc = SnapshotService::new("/s".to_string(), 2, 10);
    svc.insert_snapshot(snap(1, 30));
    svc.insert_snapshot(snap(2, 95));
    svc.insert_snapshot(snap(3, 40));
    svc.insert_snapshot(snap(4, 20));
    svc.insert_snapshot(snap(5, 99));
    // now 100, retention 10: snapshots before 90 go, leaving two.
    let dropped = svc.cleanup_at(100);
    assert_eq!(dropped, vec![1, 3, 4]);
    assert_eq!(svc.snapshot_count(), 2);
    svc.insert_snapshot(snap(6, 97));
    let dropped = svc.cleanup_at(0);
    assert_eq!(dropped, vec![2]);
    assert!(svc.cleanup_at(0).is_empty());
    assert!(svc.get_latest_snapshot().is_some());
    assert!(SnapshotService::new("/s".to_string(), 1, 1).get_latest_snapshot().is_none());
}
