use opengemini_engine::wal::{frame_record, parse_hex_u64, split_records, wal_file_id, wal_file_name_of, wal_ids, WalEntry};

#[test]
fn wal_frames_round_trip() {
    let mut bytes = frame_record(b"abc");
    assert_eq!(bytes[..4], [0, 0, 0, 3]);
    bytes.extend(frame_record(b"de"));
    let (recs, truncated) = split_records(&bytes);
    assert_eq!(recs, vec![b"abc".to_vec(), b"de".to_vec()]);
    assert!(!truncated);
}

#[test]
fn wal_split_stops_and_reports_truncation() {
    let mut bytes = frame_record(b"x");
    bytes.extend_from_slice(&[0, 0, 0, 0]);
    bytes.extend(frame_record(b"never"));
    let (recs, truncated) = split_records(&bytes);
    assert_eq!(recs.len(), 1);
    assert!(!truncated);
    let mut bytes = frame_record(b"x");
    bytes.extend_from_slice(&[0, 0, 0, 9, 1]);
    let (recs, truncated) = split_records(&bytes);
    assert_eq!(recs.len(), 1);
    assert!(truncated);
    let (_, truncated) = split_records(&[0, 0]);
    assert!(truncated);
}

#[test]
fn wal_file_names() {
    assert_eq!(wal_file_name_of(26), "000000000000001a.wal");
    assert_eq!(wal_file_id("000000000000001a.wal"), Some(26));
    assert_eq!(wal_file_id("+1F.wal"), Some(31));
    assert_eq!(wal_file_id(".wal"), None);
    assert_eq!(wal_file_id("1a.log"), None);
    assert_eq!(wal_file_id("1g.wal"), None);
    assert_eq!(parse_hex_u64("ffffffffffffffff"), Some(u64::MAX));
    assert_eq!(parse_hex_u64("10000000000000000"), None);
    let names = vec!["b.wal".to_string(), "x.txt".to_string(), "2.wal".to_string(), "a.wal".to_string()];
    assert_eq!(wal_ids(&names), vec![2, 10, 11]);
    let e = WalEntry { file_id: 1, offset: 4, size: 0 };
    assert_eq!(e.offset, 4);
}
