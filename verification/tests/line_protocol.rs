use opengemini_engine::line_protocol::{LineProtocolParser, ParsedLine, Value};
use opengemini_engine::error::Error;

fn get<'a, V>(pairs: &'a [(String, V)], key: &str) -> Option<&'a V> {
    pairs.iter().rev().find(|(k, _)| k == key).map(|(_, v)| v)
}

fn parse_err_text(r: Result<ParsedLine, Error>) -> String {
    match r {
        Err(Error::Parse(m)) => m,
        _ => panic!("expected a parse error"),
    }
}

#[test]
fn test_parse_simple_line() {
    let parser = LineProtocolParser::new();
    let result = parser.parse("cpu,host=server1,region=us-west usage=50.0 1234567890000000000").unwrap();

    assert_eq!(result.measurement, "cpu");
    assert_eq!(get(&result.tags, "host").unwrap(), "server1");
    assert_eq!(get(&result.tags, "region").unwrap(), "us-west");
    assert_eq!(get(&result.fields, "usage").unwrap(), &Value::Float("50.0".to_string()));
    assert_eq!(result.timestamp, 1234567890000000000);
}

#[test]
fn test_parse_line_without_timestamp() {
    let parser = LineProtocolParser::new().with_default_timestamp(12345);
    let result = parser.parse("cpu,host=server1 usage=50.0").unwrap();

    assert_eq!(result.measurement, "cpu");
    assert_eq!(result.timestamp, 12345);
}

#[test]
fn test_parse_line_with_integer() {
    let parser = LineProtocolParser::new();
    let result = parser.parse("monitor,host=server1 count=100i 1234567890").unwrap();

    assert_eq!(get(&result.fields, "count").unwrap(), &Value::Integer(100));
}

#[test]
fn test_parse_line_with_unsigned_integer() {
    let parser = LineProtocolParser::new();
    let result = parser.parse("monitor,host=server1 count=100u 1234567890").unwrap();

    assert_eq!(get(&result.fields, "count").unwrap(), &Value::Unsigned(100));
}

#[test]
fn test_parse_line_with_boolean() {
    let parser = LineProtocolParser::new();

    let result = parser.parse("monitor,host=server1 active=true 1234567890").unwrap();
    assert_eq!(get(&result.fields, "active").unwrap(), &Value::Boolean(true));

    let result = parser.parse("monitor,host=server1 active=false 1234567890").unwrap();
    assert_eq!(get(&result.fields, "active").unwrap(), &Value::Boolean(false));
}

#[test]
fn test_parse_line_with_string_field() {
    let parser = LineProtocolParser::new();
    let result = parser.parse("monitor,host=server1 message=\"hello world\" 1234567890").unwrap();

    assert_eq!(get(&result.fields, "message").unwrap(), &Value::String("hello world".to_string()));
}

#[test]
fn test_parse_line_with_escaped_string() {
    let parser = LineProtocolParser::new();
    let result = parser.parse(r#"monitor,host=server1 message="hello\"world" 1234567890"#).unwrap();

    assert_eq!(get(&result.fields, "message").unwrap(), &Value::String("hello\"world".to_string()));
}

#[test]
fn test_parse_multiple_lines() {
    let parser = LineProtocolParser::new();
    let input = r#"
            cpu,host=server1 usage=50.0 1234567890000000000
            cpu,host=server2 usage=60.0 1234567891000000000
            
            # comment
            mem,host=server1 usage=70.0 1234567892000000000
        "#;

    let results = parser.parse_multiple(input).unwrap();
    assert_eq!(results.len(), 3);
    assert_eq!(results[0].measurement, "cpu");
    assert_eq!(results[1].measurement, "cpu");
    assert_eq!(results[2].measurement, "mem");
}

#[test]
fn test_parse_empty_measurement() {
    let parser = LineProtocolParser::new();
    let result = parser.parse(",host=server1 usage=50.0");

    assert!(result.is_err());
}

#[test]
fn test_parse_no_fields() {
    let parser = LineProtocolParser::new();
    let result = parser.parse("cpu,host=server1");

    assert!(result.is_err());
}

#[test]
fn test_parse_comment_line() {
    let parser = LineProtocolParser::new();
    let result = parser.parse("# this is a comment");

    assert!(result.is_err());
}

#[test]
fn test_parser_with_default_tags() {
    let parser = LineProtocolParser::new().with_default_tags(vec![("region".to_string(), "us-west".to_string())]);

    let result = parser.parse("cpu,host=server1 usage=50.0 1234567890").unwrap();

    assert_eq!(get(&result.tags, "region").unwrap(), "us-west");
    assert_eq!(get(&result.tags, "host").unwrap(), "server1");
}

#[test]
fn test_value_from_str_integer() {
    let val = Value::from_text("42").unwrap();
    assert_eq!(val, Value::Integer(42));
}

#[test]
fn test_value_from_str_negative_integer() {
    let val = Value::from_text("-42").unwrap();
    assert_eq!(val, Value::Integer(-42));
}

#[test]
fn test_value_from_str_large_number() {
    let val = Value::from_text("18446744073709551615").unwrap();
    match val {
        Value::Unsigned(n) => assert_eq!(n, 18446744073709551615u64),
        _ => {}
    }
}

#[test]
fn test_value_from_str_float() {
    let val = Value::from_text("3.14").unwrap();
    assert_eq!(val, Value::Float("3.14".to_string()));
}

#[test]
fn test_value_from_str_boolean_true() {
    let val = Value::from_text("true").unwrap();
    assert_eq!(val, Value::Boolean(true));
}

#[test]
fn test_value_from_str_boolean_false() {
    let val = Value::from_text("false").unwrap();
    assert_eq!(val, Value::Boolean(false));
}

#[test]
fn test_value_from_str_quoted_string() {
    let val = Value::from_text("\"hello\"").unwrap();
    assert_eq!(val, Value::String("hello".to_string()));
}

#[test]
fn test_value_from_str_empty() {
    let result = Value::from_text("");
    assert!(result.is_err());
}

#[test]
fn test_line_protocol_parser_default() {
    let parser = LineProtocolParser::new();
    assert_eq!(parser.default_timestamp, 0);
    assert!(parser.default_tags.is_empty());
}

#[test]
fn test_line_protocol_parser_with_default_timestamp() {
    let parser = LineProtocolParser::new().with_default_timestamp(1000);
    assert_eq!(parser.default_timestamp, 1000);
}

#[test]
fn test_parse_line_without_timestamp_uses_default() {
    let parser = LineProtocolParser::new().with_default_timestamp(1000);
    let result = parser.parse("cpu,host=server1 usage=50.0");
    assert!(result.is_ok());
    assert_eq!(result.unwrap().timestamp, 1000);
}

#[test]
fn line_protocol_error_messages() {
    let parser = LineProtocolParser::new();
    assert_eq!(parse_err_text(parser.parse("   ")), "empty line or comment");
    assert_eq!(parse_err_text(parser.parse("cpu")), "missing space after measurement");
    assert_eq!(parse_err_text(parser.parse(",a=b x=1")), "empty measurement name");
    assert_eq!(parse_err_text(parser.parse("cpu,host x=1")), "invalid tag format: host");
    assert_eq!(parse_err_text(parser.parse("cpu,=a x=1")), "empty tag key");
    assert_eq!(parse_err_text(parser.parse("cpu,a= x=1")), "empty tag value");
    assert_eq!(parse_err_text(parser.parse("cpu , 5")), "at least one field is required");
    assert_eq!(parse_err_text(parser.parse("cpu x")), "invalid field format: x");
    assert_eq!(parse_err_text(parser.parse("cpu =1")), "empty field key");
    assert_eq!(parse_err_text(parser.parse("cpu x=")), "empty field value");
    assert_eq!(parse_err_text(parser.parse("cpu x=i")), "missing integer value");
    assert_eq!(parse_err_text(parser.parse("cpu x=1.5i")), "invalid integer: 1.5");
    assert_eq!(parse_err_text(parser.parse("cpu x=-1u")), "invalid unsigned integer: -1");
    assert_eq!(parse_err_text(parser.parse("cpu x=abc")), "invalid field value: abc");
    assert_eq!(parse_err_text(parser.parse("cpu x=1 12a")), "invalid timestamp: 12a");
}

#[test]
fn line_protocol_later_field_wins_and_defaults_come_first() {
    let parser = LineProtocolParser::new()
        .with_default_tags(vec![("host".to_string(), "default".to_string())]);
    let line = parser.parse("cpu,host=a x=1i,x=2i,y=T 7").unwrap();
    assert_eq!(line.tags[0], ("host".to_string(), "default".to_string()));
    assert_eq!(get(&line.tags, "host").unwrap(), "a");
    assert_eq!(get(&line.fields, "x").unwrap(), &Value::Integer(2));
    assert_eq!(get(&line.fields, "y").unwrap(), &Value::Boolean(true));
    assert_eq!(line.timestamp, 7);
}

#[test]
fn line_protocol_lone_quote_is_refused_by_try_parse() {
    let parser = LineProtocolParser::new();
    assert!(parser.try_parse("cpu x=\" 1").is_none());
    assert!(parser.try_parse("cpu,bad x=\" 1").unwrap().is_err());
}

#[test]
fn line_protocol_escapes() {
    let parser = LineProtocolParser::new();
    let line = parser.parse(r#"m s="a\tb\qc\" 1"#).unwrap();
    assert_eq!(get(&line.fields, "s").unwrap(), &Value::String("a\tb\\qc\\".to_string()));
}
