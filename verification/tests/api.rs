use opengemini_engine::api::{ApiState, CreateDatabaseResponse, HealthResponse, StorageStatsResponse, WriteResponse};

#[test]
fn test_write_response_success() {
    let resp = WriteResponse::success(10);
    assert!(resp.success);
    assert_eq!(resp.rows_written, 10);
    assert!(resp.error.is_none());
}

#[test]
fn test_write_response_error() {
    let resp = WriteResponse::error("test error".to_string());
    assert!(!resp.success);
    assert_eq!(resp.rows_written, 0);
    assert_eq!(resp.error.unwrap(), "test error");
}

#[test]
fn test_health_response_healthy() {
    let resp = HealthResponse::healthy("1.0.0", 100);
    assert_eq!(resp.status, "ok");
    assert_eq!(resp.version, "1.0.0");
    assert_eq!(resp.uptime_seconds, 100);
}

#[test]
fn test_health_response_unhealthy() {
    let resp = HealthResponse::unhealthy("no engine");
    assert!(resp.status.contains("unhealthy"));
    assert_eq!(resp.uptime_seconds, 0);
}

#[test]
fn test_api_state_creation() {
    let state = ApiState::new();
    assert_eq!(state.uptime_seconds(), 0);
    assert_eq!(state.version(), opengemini_engine::api::ENGINE_VERSION);
}

#[test]
fn test_api_state_request_tracking() {
    let mut state = ApiState::new();

    state.record_request(true);
    state.record_request(true);
    state.record_request(false);

    let (received, success, failed) = state.stats();
    assert_eq!(received, 3);
    assert_eq!(success, 2);
    assert_eq!(failed, 1);
}

#[test]
fn test_create_database_response() {
    let success = CreateDatabaseResponse::success();
    assert!(success.success);
    assert!(success.error.is_none());

    let error = CreateDatabaseResponse::error("db exists".to_string());
    assert!(!error.success);
    assert_eq!(error.error.unwrap(), "db exists");
}

#[test]
fn test_storage_stats_response() {
    let stats = StorageStatsResponse {
        database_count: 5,
        table_count: 10,
        total_rows: 1000,
        memtable_size_bytes: 1024 * 1024,
        wal_size_bytes: 2048 * 1024,
    };

    assert_eq!(stats.database_count, 5);
    assert_eq!(stats.table_count, 10);
    assert_eq!(stats.total_rows, 1000);
}

#[test]
fn unhealthy_status_names_the_reason() {
    let resp = HealthResponse::unhealthy("disk full");
    assert_eq!(resp.status, "unhealthy: disk full");
    assert_eq!(resp.version, "0.1.0");
}

#[test]
fn test_request_counts_from_start() {
    let mut state = ApiState::new();
    for ok in [true, false, true, true, false] {
        state.record_request(ok);
    }
    assert_eq!(state.stats(), (5, 3, 2));
}
