use opengemini_engine::arrow_flight::{CellValue, FloatCell};
use opengemini_engine::otel::{
    decode_log_request, decode_metric_request, decode_trace_request, get_severity_text, hex_encode, log_row, metric_rows,
    trace_row, FieldName, LogData, MetricData, MetricDataPoint, MetricType, OtelConfig, QuantileValue, TraceData,
};

#[test]
fn test_severity_text() {
    assert_eq!(get_severity_text(1), "TRACE");
    assert_eq!(get_severity_text(3), "INFO");
    assert_eq!(get_severity_text(5), "ERROR");
    assert_eq!(get_severity_text(99), "UNKNOWN");
}

#[test]
fn test_hex_encode() {
    assert_eq!(hex_encode(&[0x48, 0x65, 0x6c, 0x6c, 0x6f]), "48656c6c6f");
    assert_eq!(hex_encode(&[]), "");
}

#[test]
fn test_otel_config_default() {
    let config = OtelConfig::default();
    assert!(config.enabled);
    assert!(config.trace_enabled);
    assert!(config.metric_enabled);
    assert!(config.log_enabled);
}

fn sample_trace() -> TraceData {
    TraceData {
        trace_id: vec![0x01, 0x02, 0x03],
        span_id: vec![0x04, 0x05, 0x06],
        parent_span_id: None,
        name: "test_span".to_string(),
        start_time_unix_nano: 1000000000,
        end_time_unix_nano: 2000000000,
        attributes: Vec::new(),
        status_code: 1,
        status_message: "".to_string(),
        resource_attributes: Vec::new(),
    }
}

#[test]
fn test_trace_data_creation() {
    let trace = sample_trace();
    assert_eq!(trace.name, "test_span");
    assert_eq!(trace.end_time_unix_nano - trace.start_time_unix_nano, 1000000000);
}

#[test]
fn test_metric_type() {
    assert!(matches!(MetricType::Gauge, MetricType::Gauge));
    assert!(matches!(MetricType::Counter, MetricType::Counter));
    assert!(matches!(MetricType::Histogram, MetricType::Histogram));
    assert!(matches!(MetricType::Summary, MetricType::Summary));
}

fn text_name(n: &FieldName) -> String {
    match n {
        FieldName::Text(t) => t.clone(),
        FieldName::Quantile(q) => format!("quantile_{}", f64::from_bits(*q)),
    }
}

#[test]
fn otel_trace_row() {
    let row = trace_row(&sample_trace());
    assert_eq!(row.table, "otel_traces");
    assert_eq!(row.tags, vec![("span_name".to_string(), "test_span".to_string())]);
    let names: Vec<String> = row.fields.iter().map(|f| text_name(&f.0)).collect();
    assert_eq!(names, vec!["trace_id", "span_id", "start_time", "end_time", "duration_ns", "status_code"]);
    assert!(matches!(&row.fields[0].1, CellValue::String(b) if b == b"010203"));
    assert!(matches!(row.fields[4].1, CellValue::Integer(1000000000)));
    assert_eq!(row.timestamp, 1000000);
}

#[test]
fn otel_log_row() {
    let log = LogData {
        time_unix_nano: 5000,
        observed_time_unix_nano: 6000,
        severity_number: 4,
        severity_text: "WARN".to_string(),
        body: "disk".to_string(),
        attributes: vec![("k".to_string(), "v".to_string())],
        resource_attributes: vec![],
        trace_id: Some(vec![0xab]),
        span_id: None,
    };
    let row = log_row(&log);
    assert_eq!(row.table, "otel_logs");
    assert_eq!(row.tags, vec![("k".to_string(), "v".to_string()), ("severity".to_string(), "WARN".to_string())]);
    assert_eq!(row.fields.len(), 5);
    assert!(matches!(&row.fields[4].1, CellValue::String(b) if b == b"ab"));
    assert_eq!(row.timestamp, 5);
}

#[test]
fn otel_metric_rows_by_kind() {
    let point = MetricDataPoint {
        time_unix_nano: 3000,
        value: FloatCell::Bits(1.5f64.to_bits()),
        attributes: vec![("a".to_string(), "b".to_string())],
        count: Some(2),
        sum: None,
        buckets: None,
        quantile_values: Some(vec![QuantileValue { quantile_bits: 0.5f64.to_bits(), value: FloatCell::Bits(9.0f64.to_bits()) }]),
    };
    let gauge = MetricData {
        name: "load".to_string(),
        description: String::new(),
        unit: "1".to_string(),
        metric_type: MetricType::Gauge,
        data_points: vec![point.clone()],
        resource_attributes: vec![],
    };
    let rows = metric_rows(&gauge);
    assert_eq!(rows.len(), 1);
    assert_eq!(rows[0].table, "otel_metrics_load");
    assert_eq!(rows[0].tags.len(), 4);
    assert_eq!(rows[0].fields.iter().map(|f| text_name(&f.0)).collect::<Vec<_>>(), vec!["time", "value"]);
    let summary = MetricData { metric_type: MetricType::Summary, ..gauge.clone() };
    let rows = metric_rows(&summary);
    assert_eq!(rows[0].fields.iter().map(|f| text_name(&f.0)).collect::<Vec<_>>(), vec!["time", "quantile_0.5"]);
    let histogram = MetricData { metric_type: MetricType::Histogram, ..gauge };
    let rows = metric_rows(&histogram);
    assert_eq!(rows[0].fields.iter().map(|f| text_name(&f.0)).collect::<Vec<_>>(), vec!["time", "count"]);
}

#[test]
fn otel_requests_read_no_records() {
    assert!(decode_trace_request(&[1, 2, 3]).unwrap().is_empty());
    assert!(decode_metric_request(&[]).unwrap().is_empty());
    assert!(decode_log_request(&[9]).unwrap().is_empty());
}
