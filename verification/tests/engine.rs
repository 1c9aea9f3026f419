use opengemini_engine::engine::{Engine, EngineRow};

fn row(host: &str, field: &str, ts: i64) -> EngineRow {
    EngineRow {
        tags: vec![("host".to_string(), host.to_string())],
        field_names: vec![field.to_string()],
        tags_json: format!("{{\"host\":\"{}\"}}", host).into_bytes(),
        fields_json: format!("{{\"{}\":1.0}}", field).into_bytes(),
        timestamp: ts,
    }
}

#[test]
fn test_engine_read_gives_back_write() {
    let mut e = Engine::new(1 << 20);
    assert!(e.write_row("cpu", &row("a", "value", 1000)).is_ok());
    assert!(e.write_row("cpu", &row("b", "value", 2000)).is_ok());
    assert!(e.write_row("mem", &row("a", "used", 1500)).is_ok());
    let rows = e.scan_rows("cpu", 0, 1500);
    assert_eq!(rows.len(), 1);
    assert_eq!(rows[0].0.timestamp, 1000);
    assert_eq!(rows[0].0.series_key, b"host=a".to_vec());
    assert_eq!(rows[0].1.tags, b"{\"host\":\"a\"}".to_vec());
    assert_eq!(e.scan_rows("cpu", 0, i64::MAX).len(), 2);
    assert_eq!(e.get_series_count(), 3);
}

#[test]
fn test_engine_keys_and_drop() {
    let mut e = Engine::new(1 << 20);
    e.write_row("cpu", &row("a", "value", 1)).unwrap();
    e.write_row("cpu", &row("a", "value", 2)).unwrap();
    let mut m = e.measurements();
    m.sort();
    assert_eq!(m, vec!["cpu".to_string()]);
    assert_eq!(e.get_tag_keys("cpu"), vec!["host".to_string()]);
    assert_eq!(e.get_field_keys("cpu"), vec!["value".to_string()]);
    assert_eq!(e.get_series_count(), 1);
    e.drop_measurement("cpu").unwrap();
    assert!(e.measurements().is_empty());
    assert!(e.get_tag_keys("cpu").is_empty());
    assert_eq!(e.scan_rows("cpu", 0, 10).len(), 2);
}

#[test]
fn test_engine_flush() {
    let mut e = Engine::new(1 << 20);
    e.write_row("cpu", &row("a", "value", 1)).unwrap();
    assert!(e.flush().is_empty());
    assert!(e.get_memtable_size() > 0);
    let taken = e.force_flush();
    assert_eq!(taken.len(), 1);
    assert_eq!(e.get_memtable_size(), 0);
    assert!(e.scan_rows("cpu", 0, 10).is_empty());
    let mut small = Engine::new(1);
    small.write_row("cpu", &row("a", "value", 1)).unwrap();
    assert_eq!(small.flush().len(), 1);
}

#[test]
fn test_engine_drop_and_delete_series() {
    let mut e = Engine::new(1 << 20);
    e.write_row("cpu", &row("a", "value", 1)).unwrap();
    e.write_row("cpu", &row("b", "value", 2)).unwrap();
    let tags_a = vec![("host".to_string(), "a".to_string())];
    let id_a = e.get_series_id("cpu", &tags_a).unwrap();
    assert_eq!(e.get_series_id("mem", &tags_a), None);
    assert!(!e.is_series_deleted(id_a));
    e.delete("cpu", Some(&tags_a)).unwrap();
    assert!(e.is_series_deleted(id_a));
    assert_eq!(e.get_series_count(), 1);
    assert!(e.scan_rows("cpu", 0, 10).is_empty());
    e.drop_series(None).unwrap();
    assert_eq!(e.get_series_count(), 0);
    let tags_b = vec![("host".to_string(), "b".to_string())];
    assert!(e.is_series_deleted(e.get_series_id("cpu", &tags_b).unwrap()));
    e.drop_series(Some(42)).unwrap();
    assert!(e.is_series_deleted(42));
}
