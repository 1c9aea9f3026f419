use opengemini_engine::prometheus::parse_promql_metric;
use opengemini_engine::prometheus::{
    build_labels, decode_label, decode_read_request, decode_sample, decode_timeseries, decode_varint,
    decode_write_request, encode_label, encode_read_response, encode_sample, encode_timeseries, encode_varint,
    extract_measurement_name, extract_tags, format_metrics, Label, PrometheusConfig, PrometheusReadResponse,
    QueryResult, RemoteWriteRequest, Sample, TimeSeries,
};
use opengemini_engine::stats::EngineStats;
use std::collections::HashMap;

#[test]
fn test_encode_decode_write_request() {
    let req = RemoteWriteRequest {
        timeseries: vec![TimeSeries {
            labels: vec![
                Label { name: "__name__".to_string(), value: "cpu_usage".to_string() },
                Label { name: "host".to_string(), value: "server1".to_string() },
            ],
            samples: vec![
                Sample { value_bits: 0.75f64.to_bits(), timestamp: 1234567890 },
                Sample { value_bits: 0.80f64.to_bits(), timestamp: 1234567891 },
            ],
        }],
    };
    assert_eq!(req.timeseries.len(), 1);
    assert_eq!(req.timeseries[0].labels.len(), 2);
    assert_eq!(req.timeseries[0].samples.len(), 2);
}

#[test]
fn test_extract_measurement_name() {
    let labels = vec![
        Label { name: "__name__".to_string(), value: "http_requests".to_string() },
        Label { name: "method".to_string(), value: "GET".to_string() },
    ];
    let name = extract_measurement_name(&labels);
    assert_eq!(name, "http_requests");
}

#[test]
fn test_extract_tags() {
    let labels = vec![
        Label { name: "__name__".to_string(), value: "http_requests".to_string() },
        Label { name: "method".to_string(), value: "GET".to_string() },
        Label { name: "status".to_string(), value: "200".to_string() },
    ];
    let tags: HashMap<String, String> = extract_tags(&labels).into_iter().collect();
    assert_eq!(tags.len(), 2);
    assert_eq!(tags.get("method"), Some(&"GET".to_string()));
    assert_eq!(tags.get("status"), Some(&"200".to_string()));
}

#[test]
fn test_encode_varint() {
    assert_eq!(encode_varint(0), vec![0x00]);
    assert_eq!(encode_varint(127), vec![0x7f]);
    assert_eq!(encode_varint(128), vec![0x80, 0x01]);
    assert_eq!(encode_varint(300), vec![0xac, 0x02]);
}

#[test]
fn test_build_labels() {
    let mut tags = HashMap::new();
    tags.insert("host".to_string(), "server1".to_string());
    tags.insert("region".to_string(), "us-east".to_string());
    let pairs: Vec<(String, String)> = tags.into_iter().collect();
    let labels = build_labels(&pairs);
    assert!(labels.iter().any(|l| l.name == "__name__" && l.value == "metric"));
    assert!(labels.iter().any(|l| l.name == "host" && l.value == "server1"));
    assert!(labels.iter().any(|l| l.name == "region" && l.value == "us-east"));
}

#[test]
fn prometheus_unknown_measurement() {
    assert_eq!(extract_measurement_name(&[]), "unknown");
    assert!(PrometheusConfig::default().remote_write_enabled);
}

#[test]
fn prometheus_varint_reads_back() {
    for v in [0u64, 1, 127, 128, 300, 1 << 35, u64::MAX] {
        let mut bytes = encode_varint(v);
        let n = bytes.len();
        bytes.push(0xff);
        assert_eq!(decode_varint(&bytes, 0).unwrap(), (v, n));
    }
    assert!(decode_varint(&[0x80, 0x80], 0).is_err());
    assert!(decode_varint(&[0xff; 11], 0).is_err());
}

#[test]
fn prometheus_messages_read_back() {
    let label = Label { name: "host".to_string(), value: "a".to_string() };
    let l = decode_label(&encode_label(&label)).unwrap();
    assert_eq!((l.name.as_str(), l.value.as_str()), ("host", "a"));
    let s = Sample { value_bits: 2.5f64.to_bits(), timestamp: -7 };
    let back = decode_sample(&encode_sample(&s)).unwrap();
    assert_eq!(f64::from_bits(back.value_bits), 2.5);
    assert_eq!(back.timestamp, -7);
    let ts = TimeSeries { labels: vec![label], samples: vec![s] };
    let t = decode_timeseries(&encode_timeseries(&ts)).unwrap();
    assert_eq!(t.labels.len(), 1);
    assert_eq!(t.samples.len(), 1);
}

#[test]
fn prometheus_write_request_decodes_series() {
    let ts = TimeSeries {
        labels: vec![Label { name: "__name__".to_string(), value: "up".to_string() }],
        samples: vec![Sample { value_bits: 1.0f64.to_bits(), timestamp: 5 }],
    };
    let body = encode_timeseries(&ts);
    let mut data = vec![0x0a];
    data.extend(encode_varint(body.len() as u64));
    data.extend(body);
    let req = decode_write_request(&data).unwrap();
    assert_eq!(req.timeseries.len(), 1);
    assert_eq!(extract_measurement_name(&req.timeseries[0].labels), "up");
    let response = PrometheusReadResponse { results: vec![QueryResult { timeseries: vec![ts] }] };
    assert_eq!(encode_read_response(&response)[0], 0x0a);
    assert_eq!(decode_read_request(&[]).unwrap().matchers.len(), 0);
}

#[test]
fn prometheus_metrics_text() {
    let stats = EngineStats { series_count: 3, memtable_size: 10, memtable_row_count: 2, tssp_file_count: 1, wal_entries: 4, shard_count: 5 };
    let text = format_metrics(&stats);
    assert!(text.starts_with("# HELP openGemini_series_count Number of series in the database\n# TYPE openGemini_series_count gauge\nopenGemini_series_count 3\n"));
    assert!(text.contains("openGemini_shard_count 5\n"));
}

#[test]
fn promql_metric_names_and_labels() {
    let m = parse_promql_metric(" cpu_usage {host=\"a\", __x=1, region='us', bad} ");
    let get = |k: &str| m.iter().rev().find(|(n, _)| n == k).map(|(_, v)| v.clone());
    assert_eq!(get("__name__"), Some("cpu_usage".to_string()));
    assert_eq!(get("host"), Some("a".to_string()));
    assert_eq!(get("region"), Some("us".to_string()));
    assert_eq!(get("__x"), None);
    let m = parse_promql_metric("rate(x[5m])");
    assert_eq!(m, vec![("__name__".to_string(), "unknown".to_string())]);
    let m = parse_promql_metric("up");
    assert_eq!(m.last().unwrap().1, "up");
}

#[test]
fn test_varint_after_prefix_and_length() {
    let mut data = vec![0xffu8, 0x01];
    data.extend(encode_varint(300));
    data.push(7);
    assert_eq!(decode_varint(&data, 2).unwrap(), (300, 4));
    assert_eq!(encode_varint(0).len(), 1);
    assert_eq!(encode_varint(127).len(), 1);
    assert_eq!(encode_varint(128).len(), 2);
    assert_eq!(encode_varint(16383).len(), 2);
    assert_eq!(encode_varint(16384).len(), 3);
    assert_eq!(encode_varint(u64::MAX).len(), 10);
}
