use opengemini_engine::config::TsspConfig;
use opengemini_engine::tssp::FileMeta;
use opengemini_engine::tssp_manager::{decode_data, TsspManager};
use opengemini_engine::tssp_format::{encode_rows, RowToWrite};

fn meta(id: u64, min: i64, max: i64) -> FileMeta {
    FileMeta { file_id: id, min_time: min, max_time: max, size: 0, bloom_filter_data: None }
}

fn entry(bytes: &[u8]) -> Vec<u8> {
    let mut v = (bytes.len() as u64).to_le_bytes().to_vec();
    v.extend_from_slice(bytes);
    v
}

fn block(id: u32, bytes: &[u8]) -> Vec<u8> {
    let mut v = id.to_le_bytes().to_vec();
    v.extend_from_slice(&(bytes.len() as u64).to_le_bytes());
    v.extend_from_slice(bytes);
    v
}

#[test]
fn tssp_decode_rows() {
    let mut data = Vec::new();
    data.extend_from_slice(&7u64.to_le_bytes());
    data.extend_from_slice(&1u64.to_le_bytes());
    data.extend_from_slice(&0u32.to_le_bytes());
    data.extend_from_slice(&4u64.to_le_bytes());
    data.extend_from_slice(b"time");
    data.extend_from_slice(&0u64.to_le_bytes());
    let mut times = 10i64.to_le_bytes().to_vec();
    times.extend_from_slice(&(-3i64).to_le_bytes());
    data.extend(block(0, &times));
    let mut tags = entry(b"{\"a\":\"b\"}");
    tags.extend(entry(b"{}"));
    data.extend(block(1, &tags));
    data.extend(block(2, &entry(b"{\"f\":1}")));
    let rows = decode_data(&data).unwrap();
    assert_eq!(rows.len(), 2);
    assert_eq!(rows[0].timestamp, 10);
    assert_eq!(rows[1].timestamp, -3);
    assert_eq!(rows[0].tags_json.as_deref(), Some(&b"{\"a\":\"b\"}"[..]));
    assert_eq!(rows[1].tags_json.as_deref(), Some(&b"{}"[..]));
    assert_eq!(rows[0].fields_json.as_deref(), Some(&b"{\"f\":1}"[..]));
    assert_eq!(rows[1].fields_json, None);
}

#[test]
fn tssp_decode_short_or_marked() {
    assert!(decode_data(&[0u8; 15]).is_none());
    let mut data = vec![0u8; 16];
    assert!(decode_data(&data).is_none());
    data.extend_from_slice(&1u64.to_le_bytes());
    assert_eq!(decode_data(&data).unwrap().len(), 0);
}

#[test]
fn tssp_manager_files() {
    let mut m = TsspManager::new("/data".to_string(), TsspConfig::default());
    m.add_file_meta(meta(0, 0, 0));
    m.add_file_meta(meta(1, 0, 10));
    m.add_file_meta(meta(2, 20, 30));
    assert_eq!(m.get_file_count(), 2);
    assert!(m.should_compact());
    let hit = m.files_in_range(5, 15);
    assert_eq!(hit.len(), 1);
    assert_eq!(hit[0].file_id, 1);
    m.forget_file(1);
    assert_eq!(m.get_file_metas().len(), 1);
    assert!(!m.should_compact());
    assert_eq!(m.file_path(255), "/data/00000000000000ff.tssp");
}

#[test]
fn test_encoded_rows_decode_back() {
    let rows = vec![
        RowToWrite { timestamp: 1000, tags_json: b"{\"host\":\"a\"}".to_vec(), fields_json: b"{\"v\":1}".to_vec() },
        RowToWrite { timestamp: -5, tags_json: b"{}".to_vec(), fields_json: b"{\"v\":2}".to_vec() },
    ];
    let columns = vec![(0u32, "time".to_string()), (1u32, "host".to_string()), (2u32, "v".to_string())];
    let bytes = encode_rows(&columns, &rows);
    let decoded = decode_data(&bytes).unwrap();
    assert_eq!(decoded.len(), 2);
    assert_eq!(decoded[0].timestamp, 1000);
    assert_eq!(decoded[0].tags_json, Some(b"{\"host\":\"a\"}".to_vec()));
    assert_eq!(decoded[1].timestamp, -5);
    assert_eq!(decoded[1].fields_json, Some(b"{\"v\":2}".to_vec()));
}
