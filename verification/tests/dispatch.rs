use opengemini_engine::dispatch::{query_action, query_answer, EngineOutcome, QueryAction};
use opengemini_engine::http::plan_errors;
use opengemini_engine::http::{plan_write, lines_of_text};
use opengemini_engine::influxql::Parser;

fn action(q: &str) -> QueryAction {
    let mut p = Parser::new(q);
    query_action(&p.parse_statement().unwrap())
}

#[test]
fn test_select_answer_lists_columns_and_rows() {
    let a = action("SELECT value, host FROM cpu LIMIT 5");
    match &a {
        QueryAction::Select { measurement, limit, .. } => {
            assert_eq!(measurement, "cpu");
            assert_eq!(limit.as_deref(), Some("5"));
        }
        _ => panic!("expected a read"),
    }
    let r = query_answer(&a, &EngineOutcome::Rows(vec!["[\"1\",\"0.5\",\"a\"]".to_string()]));
    assert!(r.starts_with("HTTP/1.1 200 OK"));
    assert!(r.ends_with("{\"results\":[{\"series\":[{\"name\":\"cpu\",\"columns\":[\"time\",\"VALUE\",\"HOST\"],\"values\":[[\"1\",\"0.5\",\"a\"]]}]}]}"));
    let star = query_answer(&action("SELECT * FROM cpu"), &EngineOutcome::Rows(vec![]));
    assert!(star.ends_with("\"columns\":[\"time\"],\"values\":[]}]}]}"));
}

#[test]
fn test_show_and_create_answers() {
    let r = query_answer(&action("SHOW DATABASES"), &EngineOutcome::Names(vec!["db1".to_string()]));
    assert!(r.ends_with("{\"results\":[{\"series\":[{\"name\":\"databases\",\"values\":[[\"db1\"]]}]}]}"));
    let r = query_answer(&action("CREATE DATABASE db"), &EngineOutcome::Done);
    assert!(r.ends_with("{\"results\":[{\"success\":true}]}"));
    let r = query_answer(&action("CREATE DATABASE db"), &EngineOutcome::Missing);
    assert!(r.starts_with("HTTP/1.1 500 Internal Server Error"));
    assert!(r.ends_with("Engine not initialized"));
    let r = query_answer(&action("DROP DATABASE db"), &EngineOutcome::Failed("database db not found".to_string()));
    assert!(r.ends_with("database db not found"));
    let r = query_answer(&action("USE mydb"), &EngineOutcome::Missing);
    assert!(r.ends_with("{\"results\":[{\"success\":true,\"database\":\"mydb\"}]}"));
    let r = query_answer(&action("SHOW TAG VALUES FROM cpu"), &EngineOutcome::Done);
    assert!(r.starts_with("HTTP/1.1 501 Not Implemented"));
}

#[test]
fn test_column_names_escaped() {
    let a = QueryAction::Select { measurement: "m".to_string(), fields: vec!["a\"b".to_string()], limit: None };
    let r = query_answer(&a, &EngineOutcome::Rows(vec![]));
    assert!(r.contains("\"columns\":[\"time\",\"a\\\"b\"]"));
}

#[test]
fn test_plan_errors_lists_failed_lines() {
    let body = "cpu value=1\nbad\n\ncpu value=2";
    let request = format!("POST /write?db=x HTTP/1.1\r\nHost: h\r\n\r\n{}", body);
    let lines = lines_of_text(&request);
    let plan = plan_write(&lines, request.as_bytes());
    let errors = plan_errors(&plan);
    assert_eq!(errors.len(), 1);
    assert!(errors[0].starts_with("line 2: "));
}
