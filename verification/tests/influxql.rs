use opengemini_engine::influxql::{Condition, Literal, Parser, Statement};

fn as_usize(text: &Option<String>) -> Option<usize> {
    text.as_ref().map(|t| t.parse::<f64>().unwrap() as usize)
}

#[test]
fn test_parse_simple_select() {
    let mut parser = Parser::new("SELECT * FROM cpu");
    match parser.parse_statement().unwrap() {
        Statement::Select(s) => {
            assert_eq!(s.measurement, "cpu");
            assert!(s.fields.contains(&"*".to_string()));
        }
        _ => panic!("expected Select"),
    }
}

#[test]
fn test_parse_select_with_fields() {
    let mut parser = Parser::new("SELECT usage, temperature FROM cpu");
    match parser.parse_statement().unwrap() {
        Statement::Select(s) => {
            assert_eq!(s.measurement, "cpu");
            assert_eq!(s.fields.len(), 2);
        }
        _ => panic!("expected Select"),
    }
}

#[test]
fn test_parse_select_with_limit() {
    let mut parser = Parser::new("SELECT * FROM cpu LIMIT 10");
    match parser.parse_statement().unwrap() {
        Statement::Select(s) => assert_eq!(as_usize(&s.limit), Some(10)),
        _ => panic!("expected Select"),
    }
}

#[test]
fn test_parse_create_database() {
    let mut parser = Parser::new("CREATE DATABASE testdb");
    match parser.parse_statement().unwrap() {
        Statement::CreateDatabase(name) => assert_eq!(name, "testdb"),
        _ => panic!("expected CreateDatabase"),
    }
}

#[test]
fn test_parse_drop_database() {
    let mut parser = Parser::new("DROP DATABASE testdb");
    match parser.parse_statement().unwrap() {
        Statement::DropDatabase(name) => assert_eq!(name, "testdb"),
        _ => panic!("expected DropDatabase"),
    }
}

#[test]
fn test_parse_show_databases() {
    let mut parser = Parser::new("SHOW DATABASES");
    assert!(matches!(parser.parse_statement().unwrap(), Statement::ShowDatabases));
}

#[test]
fn test_parse_use() {
    let mut parser = Parser::new("USE testdb");
    match parser.parse_statement().unwrap() {
        Statement::Use { database } => assert_eq!(database, "testdb"),
        _ => panic!("expected Use"),
    }
}

#[test]
fn test_parse_insert() {
    let mut parser = Parser::new("INSERT cpu,host=server1 usage=50.0 1234567890");
    match parser.parse_statement().unwrap() {
        Statement::Insert { measurement, tags, fields, timestamp } => {
            assert_eq!(measurement, "cpu");
            assert_eq!(tags, vec![("host".to_string(), "server1".to_string())]);
            assert_eq!(fields.len(), 1);
            assert_eq!(fields[0].0, "usage");
            assert_eq!(fields[0].1.parse::<f64>().unwrap(), 50.0);
            assert_eq!(timestamp.map(|t| t.parse::<f64>().unwrap() as i64), Some(1234567890));
        }
        _ => panic!("expected Insert"),
    }
}

#[test]
fn test_parse_show_tag_values() {
    let mut parser = Parser::new("SHOW TAG VALUES FROM cpu");
    match parser.parse_statement().unwrap() {
        Statement::ShowTagValues(measurement, tag_key) => {
            assert_eq!(measurement, Some("cpu".to_string()));
            assert_eq!(tag_key, "");
        }
        _ => panic!("expected ShowTagValues"),
    }
}

#[test]
fn test_parse_show_tag_keys() {
    let mut parser = Parser::new("SHOW TAG KEYS FROM cpu");
    match parser.parse_statement().unwrap() {
        Statement::ShowTagKeys(measurement) => assert_eq!(measurement, Some("cpu".to_string())),
        _ => panic!("expected ShowTagKeys"),
    }
}

#[test]
fn test_parse_select_with_where() {
    let mut parser = Parser::new("SELECT * FROM cpu WHERE host = 'server1'");
    match parser.parse_statement().unwrap() {
        Statement::Select(s) => {
            assert_eq!(s.measurement, "cpu");
            assert!(s.condition.is_some());
            let cond = s.condition.unwrap();
            assert!(cond.contains("host"));
            assert!(cond.contains("="));
        }
        _ => panic!("expected Select"),
    }
}

#[test]
fn test_parse_condition_eq() {
    let mut parser = Parser::new("");
    let filter = parser.parse_condition("host = 'server1'");
    assert!(filter.is_some());
    match filter.unwrap() {
        Condition::Eq(field, value) => {
            assert_eq!(field, "host");
            match value {
                Literal::String(bytes) => assert_eq!(bytes, "server1".as_bytes().to_vec()),
                _ => panic!("expected a string"),
            }
        }
        _ => panic!("expected Eq"),
    }
}

#[test]
fn test_parse_condition_gt() {
    let mut parser = Parser::new("");
    let filter = parser.parse_condition("value > 100");
    assert!(filter.is_some());
    match filter.unwrap() {
        Condition::Gt(field, value) => {
            assert_eq!(field, "value");
            assert!(matches!(value, Literal::Integer(100)));
        }
        _ => panic!("expected Gt"),
    }
}

#[test]
fn test_parse_condition_and() {
    let mut parser = Parser::new("");
    let filter = parser.parse_condition("host = 'server1' AND value > 100");
    assert!(filter.is_some());
    assert!(matches!(filter.unwrap(), Condition::And(_, _)));
}

#[test]
fn test_parse_select_with_order_by() {
    let mut parser = Parser::new("SELECT * FROM cpu ORDER BY time DESC");
    match parser.parse_statement().unwrap() {
        Statement::Select(s) => {
            assert_eq!(s.measurement, "cpu");
            assert_eq!(s.order_by, Some("TIME".to_string()));
        }
        _ => panic!("expected Select"),
    }
}

#[test]
fn test_parse_select_with_slimit() {
    let mut parser = Parser::new("SELECT * FROM cpu SLIMIT 1");
    match parser.parse_statement().unwrap() {
        Statement::Select(s) => {
            assert_eq!(s.measurement, "cpu");
            assert_eq!(as_usize(&s.slimit), Some(1));
        }
        _ => panic!("expected Select"),
    }
}

#[test]
fn test_parse_drop_series() {
    let mut parser = Parser::new("DROP SERIES FROM cpu");
    match parser.parse_statement().unwrap() {
        Statement::DropSeries { condition } => assert!(condition.is_none()),
        _ => panic!("expected DropSeries"),
    }
}

#[test]
fn test_parse_drop_series_with_where() {
    let mut parser = Parser::new("DROP SERIES WHERE host = 'server1'");
    match parser.parse_statement().unwrap() {
        Statement::DropSeries { condition } => assert!(condition.is_some()),
        _ => panic!("expected DropSeries"),
    }
}

#[test]
fn test_parse_delete() {
    let mut parser = Parser::new("DELETE");
    match parser.parse_statement().unwrap() {
        Statement::Delete { condition } => assert!(condition.is_none()),
        _ => panic!("expected Delete"),
    }
}

#[test]
fn test_parse_delete_with_where() {
    let mut parser = Parser::new("DELETE WHERE time < 1000");
    match parser.parse_statement().unwrap() {
        Statement::Delete { condition } => assert!(condition.is_some()),
        _ => panic!("expected Delete"),
    }
}

#[test]
fn influxql_select_clauses_in_any_order() {
    let mut parser = Parser::new("select a,b from m SOFFSET 2 where x = 1\nLIMIT 5");
    match parser.parse_statement().unwrap() {
        Statement::Select(s) => {
            assert_eq!(s.fields, vec!["A".to_string(), "B".to_string()]);
            assert_eq!(s.measurement, "m");
            assert_eq!(s.soffset, Some("2".to_string()));
            assert_eq!(s.condition, Some("x = 1".to_string()));
            assert_eq!(s.limit, Some("5".to_string()));
        }
        _ => panic!("expected Select"),
    }
}

#[test]
fn influxql_select_without_from_is_refused() {
    let mut parser = Parser::new("SELECT a b");
    assert!(parser.parse_statement().is_none());
    let mut parser = Parser::new("FROB x");
    assert!(parser.parse_statement().is_none());
}

#[test]
fn influxql_limit_that_is_no_number() {
    let mut parser = Parser::new("SELECT * FROM cpu LIMIT 1-2");
    match parser.parse_statement().unwrap() {
        Statement::Select(s) => assert_eq!(s.limit, None),
        _ => panic!("expected Select"),
    }
}

#[test]
fn influxql_create_retention_policy() {
    let mut parser = Parser::new("CREATE RETENTION POLICY rp1 ON db1 DURATION 2d REPLICATION 3 DEFAULT");
    match parser.parse_statement().unwrap() {
        Statement::CreateRetentionPolicy(p) => {
            assert_eq!(p.name, "rp1");
            assert_eq!(p.database, "db1");
            assert_eq!(p.duration_seconds, 2 * 86400);
            assert_eq!(p.replication, Some("3".to_string()));
            assert!(p.default);
        }
        _ => panic!("expected CreateRetentionPolicy"),
    }
    let mut parser = Parser::new("CREATE RETENTION RP short");
    match parser.parse_statement().unwrap() {
        Statement::CreateRetentionPolicy(p) => {
            assert_eq!(p.duration_seconds, 604800);
            assert_eq!(p.replication, None);
            assert!(!p.default);
        }
        _ => panic!("expected CreateRetentionPolicy"),
    }
    let mut parser = Parser::new("CREATE RETENTION POLICY rp ON");
    assert!(parser.parse_statement().is_none());
}

#[test]
fn influxql_show_statements() {
    let mut parser = Parser::new("SHOW RETENTION POLICIES");
    assert!(matches!(parser.parse_statement().unwrap(), Statement::ShowRetentionPolicies(None)));
    let mut parser = Parser::new("SHOW FIELD KEYS FROM mem");
    match parser.parse_statement().unwrap() {
        Statement::ShowFieldKeys(m) => assert_eq!(m, Some("mem".to_string())),
        _ => panic!("expected ShowFieldKeys"),
    }
    let mut parser = Parser::new("SHOW TAG VALUES FROM cpu host");
    match parser.parse_statement().unwrap() {
        Statement::ShowTagValues(m, k) => {
            assert_eq!(m, Some("cpu".to_string()));
            assert_eq!(k, "host");
        }
        _ => panic!("expected ShowTagValues"),
    }
    let mut parser = Parser::new("SHOW SERIES");
    assert!(matches!(parser.parse_statement().unwrap(), Statement::ShowSeries));
}

#[test]
fn influxql_insert_fields_stop_at_a_bad_value() {
    let mut parser = Parser::new("INSERT m a=1,b=x,c=3");
    match parser.parse_statement().unwrap() {
        Statement::Insert { fields, timestamp, .. } => {
            assert_eq!(fields, vec![("a".to_string(), "1".to_string())]);
            assert_eq!(timestamp, None);
        }
        _ => panic!("expected Insert"),
    }
}

#[test]
fn influxql_condition_values() {
    let mut parser = Parser::new("");
    match parser.parse_condition("flag = TRUE").unwrap() {
        Condition::Eq(_, v) => assert!(matches!(v, Literal::Boolean(true))),
        _ => panic!("expected Eq"),
    }
    match parser.parse_condition("x <= 1.5e3").unwrap() {
        Condition::Lte(f, Literal::Float(t)) => {
            assert_eq!(f, "x");
            assert_eq!(t, "1.5e3");
        }
        _ => panic!("expected Lte with a float"),
    }
    match parser.parse_condition("a > 1 or b < 2").unwrap() {
        Condition::Or(_, _) => {}
        _ => panic!("expected Or"),
    }
    assert!(parser.parse_condition("   ").is_none());
    assert!(parser.parse_condition("no operator here").is_none());
}

#[test]
fn influxql_time_condition_counts_back_from_now() {
    let mut parser = Parser::new("");
    let now: i64 = 10_000_000_000_000;
    match parser.parse_condition_at("time > now()-1h", now).unwrap() {
        Condition::Gt(f, Literal::Integer(t)) => {
            assert_eq!(f, "time");
            assert_eq!(t, now - 3_600_000_000_000);
        }
        _ => panic!("expected Gt on time"),
    }
    match parser.parse_condition_at("time >= now()-30m", now).unwrap() {
        Condition::Gte(_, Literal::Integer(t)) => assert_eq!(t, now - 1_800_000_000_000),
        _ => panic!("expected Gte on time"),
    }
    assert!(parser.parse_condition_at("time > 1000", now).is_none());
    assert!(parser.parse_condition_at("time > now() - 1h", now).is_none());
}

#[test]
fn test_parse_alter_database_sets_policy() {
    let mut p = Parser::new("ALTER DATABASE mydb SET RETENTION POLICY rp DURATION 30d REPLICATION 1");
    match p.parse_statement() {
        Some(Statement::CreateRetentionPolicy(rp)) => {
            assert_eq!(rp.name, "rp");
            assert_eq!(rp.database, "mydb");
            assert_eq!(rp.duration_seconds, 30 * 86400);
            assert_eq!(rp.replication, Some("1".to_string()));
            assert!(!rp.default);
        }
        _ => panic!("expected a retention policy"),
    }
}

#[test]
fn test_parse_select_aggregate_fields() {
    let mut p = Parser::new("SELECT COUNT(value) FROM cpu");
    match p.parse_statement() {
        Some(Statement::Select(s)) => {
            assert_eq!(s.measurement, "cpu");
            assert_eq!(s.fields, vec!["COUNT(value)".to_string()]);
        }
        _ => panic!("expected Select"),
    }
    let mut p = Parser::new("SELECT SUM(value), MEAN(value) FROM cpu");
    match p.parse_statement() {
        Some(Statement::Select(s)) => {
            assert_eq!(s.measurement, "cpu");
            assert_eq!(s.fields, vec!["SUM(value)".to_string(), "MEAN(value)".to_string()]);
        }
        _ => panic!("expected Select"),
    }
}

#[test]
fn test_parse_select_where_then_limit() {
    let mut p = Parser::new("SELECT * FROM cpu WHERE host = \"server1\" AND value > 0.5 LIMIT 10");
    match p.parse_statement() {
        Some(Statement::Select(s)) => {
            assert_eq!(s.measurement, "cpu");
            assert_eq!(as_usize(&s.limit), Some(10));
            assert_eq!(s.condition.as_deref(), Some("host = \"server1\" AND value > 0.5"));
        }
        _ => panic!("expected Select"),
    }
}

#[test]
fn test_parse_condition_ne() {
    let mut parser = Parser::new("");
    match parser.parse_condition("value != 5") {
        Some(Condition::Ne(field, Literal::Integer(5))) => assert_eq!(field, "value"),
        _ => panic!("expected Ne"),
    }
}
