use opengemini_engine::http::{
    convert_timestamp, format_http_response, lines_of_text, plan_query, plan_write, request_complete, route,
    url_decode, write_response, write_target, HttpConfig, LineOutcome, Route, names_response, policies_response,
    series_count_response,
};
use opengemini_engine::influxql::Statement;

#[test]
fn test_format_http_response() {
    let resp = format_http_response(200, "OK", "{\"test\": true}");
    assert!(resp.contains("HTTP/1.1 200 OK"));
    assert!(resp.contains("Content-Length: 14"));
}

#[test]
fn test_http_config_default() {
    let config = HttpConfig::default();
    assert_eq!(config.bind_addr, "0.0.0.0:8086");
    assert_eq!(config.read_timeout_secs, 30);
}

#[test]
fn http_response_whole_text() {
    let resp = format_http_response(404, "Not Found", "404 Not Found");
    assert_eq!(
        resp,
        "HTTP/1.1 404 Not Found\r\nServer: openGemini-rs/0.1.0\r\nContent-Type: application/json\r\nContent-Length: 13\r\nConnection: close\r\n\r\n404 Not Found"
    );
}

#[test]
fn http_response_counts_bytes_and_drops_body_of_204() {
    let resp = format_http_response(200, "OK", "é");
    assert!(resp.contains("Content-Length: 2"));
    let resp = format_http_response(204, "No Content", "abc");
    assert!(resp.ends_with("Content-Length: 3\r\nConnection: close\r\n\r\n"));
}

#[test]
fn http_url_decode() {
    assert_eq!(url_decode("a+b%20c"), "a b c");
    assert_eq!(url_decode("%41%7a"), "Az");
    assert_eq!(url_decode("%+9"), "\t");
    assert_eq!(url_decode("%zz1"), "%zz1");
    assert_eq!(url_decode("100%"), "100%");
    assert_eq!(url_decode("%4"), "%4");
}

#[test]
fn http_convert_timestamp() {
    assert_eq!(convert_timestamp(1_500_000, "ms"), 1);
    assert_eq!(convert_timestamp(-1999, "u"), -1);
    assert_eq!(convert_timestamp(-1999, "us"), -1);
    assert_eq!(convert_timestamp(7_200_000_000_000, "h"), 2);
    assert_eq!(convert_timestamp(120_000_000_000, "m"), 2);
    assert_eq!(convert_timestamp(3_000_000_000, "s"), 3);
    assert_eq!(convert_timestamp(42, "ns"), 42);
}

#[test]
fn http_lines_follow_str_lines() {
    assert_eq!(lines_of_text("a\r\nb\n\nc\r"), vec!["a", "b", "", "c\r"]);
    assert_eq!(lines_of_text("x\n"), vec!["x"]);
    assert!(lines_of_text("").is_empty());
}

#[test]
fn http_request_complete() {
    assert!(request_complete(b"GET / HTTP/1.1\r\n\r\n"));
    assert!(!request_complete(b"GET / HTTP/1.1\r\n"));
    assert!(request_complete(&vec![b'a'; 32769]));
}

#[test]
fn http_routes() {
    assert_eq!(route("GET /ping HTTP/1.1"), Route::Ping);
    assert_eq!(route("post /write?db=x HTTP/1.1"), Route::Write);
    assert_eq!(route("GET /query?q=x HTTP/1.1"), Route::Query);
    assert_eq!(route("GET / HTTP/1.1"), Route::Root);
    assert_eq!(route("GET /other HTTP/1.1"), Route::NotFound);
    assert_eq!(route("DELETE / HTTP/1.1"), Route::MethodNotAllowed);
}

#[test]
fn http_write_target() {
    let (db, precision) = write_target("POST /write?DB=my%20db&precision=ms HTTP/1.1");
    assert_eq!(db, "my db");
    assert_eq!(precision, "ms HTTP/1.1");
    let (db, precision) = write_target("POST /write HTTP/1.1");
    assert_eq!(db, "");
    assert_eq!(precision, "ns");
}

#[test]
fn http_plan_write_from_body() {
    let buffer = b"POST /write?db=d&precision=s\r\nHost: x\r\n\r\ncpu v=1i 3000000000\n\nbad\ncpu v=\" 1".to_vec();
    let lines: Vec<String> = lines_of_text(&String::from_utf8_lossy(&buffer)).into_iter().collect();
    let plan = plan_write(&lines, &buffer);
    assert_eq!(plan.database, "d");
    assert_eq!(plan.outcomes.len(), 4);
    match &plan.outcomes[0] {
        LineOutcome::Row(p) => {
            assert_eq!(p.measurement, "cpu");
            assert_eq!(p.timestamp, 3);
        }
        _ => panic!("expected a row"),
    }
    assert!(matches!(plan.outcomes[1], LineOutcome::Skipped));
    match &plan.outcomes[2] {
        LineOutcome::Failed(m) => assert_eq!(m, "line 3: Parse error: missing space after measurement"),
        _ => panic!("expected a failure"),
    }
    assert!(matches!(plan.outcomes[3], LineOutcome::Stuck));
}

#[test]
fn http_write_response() {
    let r = write_response(0, &vec!["line 1: x".to_string(), "line 2: y".to_string()]);
    assert!(r.starts_with("HTTP/1.1 400 Bad Request"));
    assert!(r.ends_with("{\"error\":\"line 1: x; line 2: y\"}"));
    let r = write_response(1, &vec!["line 1: x".to_string()]);
    assert!(r.starts_with("HTTP/1.1 204 No Content"));
}

#[test]
fn http_plan_query() {
    let r = plan_query("GET /query?db=x HTTP/1.1").unwrap_err();
    assert!(r.ends_with("{\"error\":\"missing query parameter\"}"));
    let r = plan_query("GET /query?q=FOO").unwrap_err();
    assert!(r.ends_with("{\"error\":\"invalid query: FOO\"}"));
    match plan_query("GET /query?q=CREATE+DATABASE+mydb") {
        Ok(Statement::CreateDatabase(name)) => assert_eq!(name, "mydb"),
        _ => panic!("expected CREATE DATABASE"),
    }
}

#[test]
fn http_json_bodies() {
    let r = names_response("databases", &vec!["a".to_string(), "b".to_string()]);
    assert!(r.ends_with("{\"results\":[{\"series\":[{\"name\":\"databases\",\"values\":[[\"a\"],[\"b\"]]}]}]}"));
    let r = names_response("measurements", &vec![]);
    assert!(r.ends_with("{\"results\":[{\"series\":[{\"name\":\"measurements\",\"values\":[]}]}]}"));
    let r = series_count_response(5);
    assert!(r.ends_with("\"values\":[[\"5\"]]}]}]\"}"));
    let r = policies_response(&vec![("autogen".to_string(), 0, 1)]);
    assert!(r.ends_with("\"values\":[[\"autogen\",\"0\",\"1\"]]}]}]}"));
}
