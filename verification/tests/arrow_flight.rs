use opengemini_engine::arrow_flight::{
    build_batch_from_rows, convert_from_record_batch, convert_to_record_batches, get_column_value, ArrowType,
    CellValue, Column, ColumnValue, ColumnValues, DescriptorType, FlightConfig, FloatCell, FlightRow, RecordBatch,
    Schema,
};

#[test]
fn test_flight_config_default() {
    let config = FlightConfig::default();
    assert!(config.enabled);
    assert_eq!(config.bind_addr, "0.0.0.0:9999");
    assert_eq!(config.max_record_batch_size, 10000);
}

#[test]
fn test_descriptor_type() {
    assert!(matches!(DescriptorType::Path, DescriptorType::Path));
    assert!(matches!(DescriptorType::Query, DescriptorType::Query));
    assert!(matches!(DescriptorType::Unspecified, DescriptorType::Unspecified));
}

#[test]
fn test_arrow_type() {
    assert!(matches!(ArrowType::Int64, ArrowType::Int64));
    assert!(matches!(ArrowType::Float64, ArrowType::Float64));
    assert!(matches!(ArrowType::Utf8, ArrowType::Utf8));
    assert!(matches!(ArrowType::Bool, ArrowType::Bool));
    assert!(matches!(ArrowType::Timestamp, ArrowType::Timestamp));
}

#[test]
fn test_column_values_int64() {
    let values = ColumnValues::Int64(vec![1, 2, 3]);
    if let ColumnValues::Int64(v) = values {
        assert_eq!(v, vec![1, 2, 3]);
    } else {
        panic!("Expected Int64");
    }
}

#[test]
fn test_column_values_utf8() {
    let values = ColumnValues::Utf8(vec!["a".to_string(), "b".to_string()]);
    if let ColumnValues::Utf8(v) = values {
        assert_eq!(v.len(), 2);
    } else {
        panic!("Expected Utf8");
    }
}

#[test]
fn test_record_batch_row_count() {
    let batch = RecordBatch {
        schema: Schema { fields: vec![] },
        columns: vec![Column {
            name: "value".to_string(),
            data_type: ArrowType::Int64,
            values: ColumnValues::Int64(vec![1, 2, 3, 4, 5]),
            null_count: 0,
        }],
        row_count: 5,
    };
    assert_eq!(batch.row_count, 5);
}

fn row(host: &str, usage: f64, count: i64, ts: i64) -> FlightRow {
    FlightRow {
        tags: vec![("host".to_string(), host.to_string())],
        fields: vec![
            ("usage".to_string(), CellValue::Float(FloatCell::Bits(usage.to_bits()))),
            ("count".to_string(), CellValue::Integer(count)),
        ],
        timestamp: ts,
    }
}

#[test]
fn flight_batch_layout_follows_the_first_row() {
    let rows = vec![row("a", 1.5, 3, 10), row("b", 2.5, 4, 20)];
    let batch = build_batch_from_rows(&rows);
    assert_eq!(batch.row_count, 2);
    let names: Vec<&str> = batch.schema.fields.iter().map(|f| f.name.as_str()).collect();
    assert_eq!(names, vec!["tag_host", "usage", "count", "time"]);
    assert_eq!(batch.columns.len(), 4);
    match &batch.columns[0].values {
        ColumnValues::Utf8(v) => assert_eq!(v, &vec!["a".to_string(), "b".to_string()]),
        _ => panic!("tag column should hold text"),
    }
    match &batch.columns[1].values {
        ColumnValues::Float64(v) => match &v[1] {
            FloatCell::Bits(b) => assert_eq!(f64::from_bits(*b), 2.5),
            _ => panic!("float bits expected"),
        },
        _ => panic!("usage column should hold floats"),
    }
    match &batch.columns[3].values {
        ColumnValues::Int64(v) => assert_eq!(v, &vec![10, 20]),
        _ => panic!("time column should hold integers"),
    }
}

#[test]
fn flight_batches_are_cut_by_size() {
    let rows: Vec<FlightRow> = (0..5).map(|i| row("h", 0.0, i, i)).collect();
    let batches = convert_to_record_batches(2, &rows);
    assert_eq!(batches.iter().map(|b| b.row_count).collect::<Vec<_>>(), vec![2, 2, 1]);
    let single = convert_to_record_batches(0, &rows);
    assert_eq!(single.len(), 5);
    assert!(convert_to_record_batches(3, &[]).is_empty());
}

#[test]
fn flight_batch_reads_back_into_rows() {
    let rows = vec![row("a", 1.5, 3, 10)];
    let batch = build_batch_from_rows(&rows);
    let back = convert_from_record_batch(&batch);
    assert_eq!(back.len(), 1);
    assert_eq!(back[0].timestamp, 10);
    assert_eq!(back[0].tags, vec![("host".to_string(), "a".to_string())]);
    assert_eq!(back[0].fields.len(), 2);
    assert!(matches!(back[0].fields[1].1, CellValue::Integer(3)));
    assert!(matches!(get_column_value(&batch.columns[0], 5), ColumnValue::Null));
}
