use opengemini_engine::backup::{backup_type_of, backups_to_remove, checksum_hex, BackupConfig, BackupType};

#[test]
fn test_backup_config_default() {
    let config = BackupConfig::default();
    assert!(config.enabled);
    assert_eq!(config.max_full_backups, 3);
    assert_eq!(config.max_incremental_backups, 10);
}

#[test]
fn test_backup_type_equality() {
    assert_eq!(BackupType::Full, BackupType::Full);
    assert_eq!(BackupType::Incremental, BackupType::Incremental);
    assert_ne!(BackupType::Full, BackupType::Incremental);
}

#[test]
fn backup_checksum_is_crc32_in_hex() {
    let checksum = checksum_hex(b"123456789");
    assert_eq!(checksum, "cbf43926");
    let checksum = checksum_hex(b"test data");
    assert_eq!(checksum.len(), 8);
    assert!(checksum.chars().all(|c| c.is_ascii_hexdigit()));
    assert_eq!(checksum_hex(b""), "00000000");
}

#[test]
fn backup_cleanup_choice() {
    assert_eq!(backup_type_of(&vec![]), BackupType::Full);
    assert_eq!(backup_type_of(&vec!["b".to_string()]), BackupType::Incremental);
    let list = vec![
        ("f1".to_string(), BackupType::Full),
        ("i1".to_string(), BackupType::Incremental),
        ("f2".to_string(), BackupType::Full),
        ("f3".to_string(), BackupType::Full),
        ("i2".to_string(), BackupType::Incremental),
    ];
    assert_eq!(backups_to_remove(&list, 1, 1), vec!["f2".to_string(), "f3".to_string(), "i2".to_string()]);
    assert!(backups_to_remove(&list, 3, 2).is_empty());
}
