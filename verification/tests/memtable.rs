use opengemini_engine::config::MemTableConfig;
use opengemini_engine::memtable::{encode_measurement_series_key, encode_series_key, MemTable, RowKey, RowValue};

fn key(table: &str, ts: i64, series: &str) -> RowKey {
    RowKey { table: table.as_bytes().to_vec(), timestamp: ts, series_key: series.as_bytes().to_vec() }
}

fn value(tags: &str) -> RowValue {
    RowValue { tags: tags.as_bytes().to_vec(), fields: b"{}".to_vec() }
}

#[test]
fn test_memtable_new() {
    let memtable = MemTable::new(1024 * 1024);
    assert_eq!(memtable.size(), 0);
    assert_eq!(memtable.row_count(), 0);
    assert!(!memtable.should_flush());
}

#[test]
fn test_memtable_default_config() {
    let config = MemTableConfig::default();
    assert_eq!(config.max_size, 64 * 1024 * 1024);
    assert_eq!(config.flush_interval_ms, 1000);
}

#[test]
fn memtable_estimates() {
    assert_eq!(key("cpu", 1, "host=a").estimate_size(), 3 + 6 + 16);
    assert_eq!(value("ab").estimate_size(), 4);
}

#[test]
fn memtable_keeps_key_order_and_replaces() {
    let mut m = MemTable::new(60);
    m.insert_entry(key("cpu", 20, "b"), value("1"));
    m.insert_entry(key("cpu", 10, "z"), value("2"));
    m.insert_entry(key("cpu", 20, "a"), value("3"));
    m.insert_entry(key("cpu", 20, "b"), value("4"));
    m.insert_entry(key("mem", 15, ""), value("5"));
    assert_eq!(m.row_count(), 5);
    assert!(m.should_flush());
    let rows = m.scan(b"cpu", 10, 21).unwrap();
    let order: Vec<(i64, Vec<u8>)> = rows.iter().map(|(k, _)| (k.timestamp, k.series_key.clone())).collect();
    assert_eq!(order, vec![(10, b"z".to_vec()), (20, b"a".to_vec()), (20, b"b".to_vec())]);
    assert_eq!(rows[2].1.tags, b"4".to_vec());
    assert!(m.scan(b"cpu", 11, 20).unwrap().is_empty());
    let all = m.flush().unwrap();
    assert_eq!(all.len(), 4);
    assert_eq!(all[3].0.table, b"mem".to_vec());
    assert_eq!(m.size(), 0);
    assert_eq!(m.row_count(), 0);
}

#[test]
fn memtable_series_keys_sort_tags() {
    let tags = vec![
        ("region".to_string(), "us".to_string()),
        ("host".to_string(), "b".to_string()),
        ("Host".to_string(), "a".to_string()),
    ];
    assert_eq!(encode_series_key(&tags), b"Host=a,host=b,region=us".to_vec());
    assert_eq!(encode_measurement_series_key("cpu", &tags), b"cpu_Host=a,host=b,region=us".to_vec());
    assert_eq!(encode_measurement_series_key("cpu", &vec![]), b"cpu_".to_vec());
}
