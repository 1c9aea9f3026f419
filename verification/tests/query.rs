use opengemini_engine::error::Error;
use opengemini_engine::query::{aggregate_group_by, QueryExecutor, QueryRequest, QueryRow, QueryValue};
use opengemini_engine::schema::{RetentionPolicy, Schema};
use opengemini_engine::stats::TimeRange;
use std::collections::HashMap;

/// A row as the engine hands it over.
struct Row {
    #[allow(dead_code)]
    tags: HashMap<String, String>,
    #[allow(dead_code)]
    fields: HashMap<String, String>,
    timestamp: i64,
}

fn rows() -> Vec<Row> {
    vec![
        Row { tags: HashMap::new(), fields: HashMap::new(), timestamp: 100 },
        Row { tags: HashMap::new(), fields: HashMap::new(), timestamp: 200 },
    ]
}

fn schema_with_rp() -> Schema {
    let mut schema = Schema::new();
    schema.create_database("testdb".to_string()).unwrap();
    schema.create_retention_policy("testdb", RetentionPolicy::new("rp1".to_string(), 86400)).unwrap();
    schema
}

#[test]
fn test_query_request_new() {
    let request = QueryRequest::<()>::new(
        "testdb".to_string(),
        "cpu".to_string(),
        TimeRange { start: 0, end: 1000 },
    );

    assert_eq!(request.database, "testdb");
    assert_eq!(request.measurement, "cpu");
    assert_eq!(request.time_range.start, 0);
    assert_eq!(request.time_range.end, 1000);
}

#[test]
fn test_query_request_with_options() {
    let request = QueryRequest::<()>::new(
        "testdb".to_string(),
        "cpu".to_string(),
        TimeRange { start: 0, end: 1000 },
    )
    .with_fields(vec!["field1".to_string(), "field2".to_string()])
    .with_limit(100)
    .with_group_by(vec!["tag1".to_string()]);

    assert_eq!(request.selected_fields.len(), 2);
    assert_eq!(request.limit, Some(100));
    assert_eq!(request.group_by.len(), 1);
}

#[test]
fn test_query_executor_new() {
    let schema = Schema::new();
    let executor = QueryExecutor::new(schema);
    assert!(executor.schema.databases.is_empty());
}

#[test]
fn test_query_executor_validate_query_empty_measurement() {
    let schema = Schema::new();
    let executor = QueryExecutor::new(schema);

    let request = QueryRequest::<()>::new(
        "testdb".to_string(),
        "".to_string(),
        TimeRange { start: 0, end: 1000 },
    );

    let result = executor.validate_query(&request);
    assert!(result.is_err());
}

#[test]
fn test_query_executor_validate_query_nonexistent_db() {
    let schema = Schema::new();
    let executor = QueryExecutor::new(schema);

    let request = QueryRequest::<()>::new(
        "nonexistent".to_string(),
        "cpu".to_string(),
        TimeRange { start: 0, end: 1000 },
    );

    let result = executor.validate_query(&request);
    assert!(result.is_err());
}

#[test]
fn test_query_executor_execute_select() {
    let executor = QueryExecutor::new(schema_with_rp());

    let request = QueryRequest::<()>::new(
        "testdb".to_string(),
        "cpu".to_string(),
        TimeRange { start: 0, end: 1000 },
    )
    .with_limit(10);

    let results = executor.execute_select(&request, rows()).unwrap();
    assert_eq!(results.len(), 2);
}

#[test]
fn test_query_executor_execute_select_with_limit() {
    let executor = QueryExecutor::new(schema_with_rp());

    let request = QueryRequest::<()>::new(
        "testdb".to_string(),
        "cpu".to_string(),
        TimeRange { start: 0, end: 1000 },
    )
    .with_limit(1);

    let results = executor.execute_select(&request, rows()).unwrap();
    assert_eq!(results.len(), 1);
}

#[test]
fn test_query_executor_execute_select_with_offset() {
    let executor = QueryExecutor::new(schema_with_rp());

    let mut request = QueryRequest::<()>::new(
        "testdb".to_string(),
        "cpu".to_string(),
        TimeRange { start: 0, end: 1000 },
    );
    request.offset = Some(1);
    request.limit = Some(10);

    let results = executor.execute_select(&request, rows()).unwrap();
    assert_eq!(results.len(), 1);
    assert_eq!(results[0].timestamp, 200);
}

#[test]
fn test_query_executor_get_measurement_fields() {
    let executor = QueryExecutor::new(schema_with_rp());

    let fields = executor.get_measurement_fields("testdb", "cpu").unwrap();
    assert!(!fields.is_empty());
}

#[test]
fn query_errors_name_the_database() {
    let mut schema = Schema::new();
    schema.create_database("empty".to_string()).unwrap();
    let executor = QueryExecutor::new(schema);
    let request = QueryRequest::<()>::new("empty".to_string(), "cpu".to_string(), TimeRange { start: 0, end: 1 });
    match executor.validate_query(&request) {
        Err(Error::Schema(m)) => assert_eq!(m, "no retention policy in database empty"),
        _ => panic!("expected a schema error"),
    }
    match executor.get_measurement_fields("nope", "cpu") {
        Err(Error::Schema(m)) => assert_eq!(m, "database nope not found"),
        _ => panic!("expected a schema error"),
    }
    match executor.get_measurement_fields("empty", "cpu") {
        Err(Error::Schema(m)) => assert_eq!(m, "no default retention policy in database empty"),
        _ => panic!("expected a schema error"),
    }
    assert_eq!(executor.get_measurement_fields("empty", "cpu").is_err(), true);
}

#[test]
fn query_offset_past_the_end_gives_nothing() {
    let executor = QueryExecutor::new(schema_with_rp());
    let mut request = QueryRequest::<()>::new("testdb".to_string(), "cpu".to_string(), TimeRange { start: 0, end: 1 });
    request.offset = Some(2);
    assert!(executor.execute_select(&request, rows()).unwrap().is_empty());
}

fn grouped_row(host: &str, v: i64, ts: i64) -> QueryRow {
    QueryRow {
        tags: vec![("host".to_string(), host.to_string())],
        fields: vec![("value".to_string(), QueryValue::Integer(v)), ("f".to_string(), QueryValue::Float(0))],
        timestamp: ts,
    }
}

#[test]
fn test_aggregate_group_by_host() {
    let rows = vec![grouped_row("a", 1, 10), grouped_row("b", 5, 20), grouped_row("a", 2, 30)];
    let out = aggregate_group_by(
        &vec!["host".to_string()],
        &vec!["value".to_string(), "f".to_string(), "_time".to_string()],
        &rows,
    );
    assert_eq!(out.len(), 2);
    assert_eq!(out[0].tags[0].1, "a");
    assert_eq!(out[0].timestamp, 10);
    assert_eq!(out[0].fields.len(), 2);
    assert!(matches!(out[0].fields[0], (ref k, QueryValue::Integer(3)) if k == "value"));
    assert!(matches!(out[0].fields[1], (ref k, QueryValue::Integer(10)) if k == "_time"));
    assert!(matches!(out[1].fields[0], (_, QueryValue::Integer(5))));
}
