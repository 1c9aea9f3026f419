use opengemini_engine::downsample::{AggregatorType, DownsampleEngine, DownsampleInterval, DownsampleRule};

#[test]
fn test_downsample_interval_from_seconds() {
    assert_eq!(DownsampleInterval::from_seconds(60), Some(DownsampleInterval::Min1));
    assert_eq!(DownsampleInterval::from_seconds(300), Some(DownsampleInterval::Min5));
    assert_eq!(DownsampleInterval::from_seconds(3600), Some(DownsampleInterval::Hour1));
    assert_eq!(DownsampleInterval::from_seconds(86400), Some(DownsampleInterval::Day1));
    assert_eq!(DownsampleInterval::from_seconds(999), None);
}

#[test]
fn test_downsample_interval_as_seconds() {
    assert_eq!(DownsampleInterval::Min1.as_seconds(), 60);
    assert_eq!(DownsampleInterval::Min5.as_seconds(), 300);
    assert_eq!(DownsampleInterval::Hour1.as_seconds(), 3600);
    assert_eq!(DownsampleInterval::Day1.as_seconds(), 86400);
}

#[test]
fn test_downsample_rule_new() {
    let rule = DownsampleRule::new("cpu_1m_to_5m".to_string(), DownsampleInterval::Min1, DownsampleInterval::Min5);

    assert_eq!(rule.name, "cpu_1m_to_5m");
    assert_eq!(rule.source_interval, DownsampleInterval::Min1);
    assert_eq!(rule.target_interval, DownsampleInterval::Min5);
    assert!(rule.aggregators.is_empty());
}

#[test]
fn test_downsample_rule_with_aggregators() {
    let rule = DownsampleRule::new("cpu_1m_to_5m".to_string(), DownsampleInterval::Min1, DownsampleInterval::Min5)
        .with_aggregators(vec![AggregatorType::Mean, AggregatorType::Max]);

    assert_eq!(rule.aggregators.len(), 2);
}

#[test]
fn test_downsample_rule_get_bucket_time() {
    let rule = DownsampleRule::new("cpu_1m_to_5m".to_string(), DownsampleInterval::Min1, DownsampleInterval::Min5);

    assert_eq!(rule.get_bucket_time(0), 0);
    assert_eq!(rule.get_bucket_time(60), 0);
    assert_eq!(rule.get_bucket_time(120), 0);
    assert_eq!(rule.get_bucket_time(300), 300);
    assert_eq!(rule.get_bucket_time(301), 300);
}

#[test]
fn test_aggregator_type_as_str() {
    assert_eq!(AggregatorType::Sum.as_str(), "sum");
    assert_eq!(AggregatorType::Min.as_str(), "min");
    assert_eq!(AggregatorType::Max.as_str(), "max");
    assert_eq!(AggregatorType::Mean.as_str(), "mean");
    assert_eq!(AggregatorType::First.as_str(), "first");
    assert_eq!(AggregatorType::Last.as_str(), "last");
    assert_eq!(AggregatorType::Count.as_str(), "count");
}

#[test]
fn test_downsample_engine_new() {
    let engine = DownsampleEngine::new();
    assert!(engine.list_rules().is_empty());
}

#[test]
fn test_downsample_engine_add_remove_rule() {
    let mut engine = DownsampleEngine::new();

    let rule = DownsampleRule::new("cpu_1m_to_5m".to_string(), DownsampleInterval::Min1, DownsampleInterval::Min5);

    engine.add_rule(rule);
    assert_eq!(engine.list_rules().len(), 1);

    assert!(engine.get_rule("cpu_1m_to_5m").is_some());

    assert!(engine.remove_rule("cpu_1m_to_5m"));
    assert!(!engine.remove_rule("nonexistent"));
}

#[test]
fn test_downsample_engine_aggregate() {
    let mut engine = DownsampleEngine::new();

    let rule = DownsampleRule::new("cpu".to_string(), DownsampleInterval::Min1, DownsampleInterval::Min5)
        .with_aggregators(vec![
            AggregatorType::Sum,
            AggregatorType::Min,
            AggregatorType::Max,
            AggregatorType::Mean,
            AggregatorType::First,
            AggregatorType::Last,
            AggregatorType::Count,
        ]);

    engine.add_rule(rule);

    let result = engine.aggregate("cpu", &[10, 20, 30, 40, 50]).unwrap();

    assert_eq!(result[&AggregatorType::Sum], 150);
    assert_eq!(result[&AggregatorType::Min], 10);
    assert_eq!(result[&AggregatorType::Max], 50);
    assert_eq!(result[&AggregatorType::Mean], 30);
    assert_eq!(result[&AggregatorType::First], 10);
    assert_eq!(result[&AggregatorType::Last], 50);
    assert_eq!(result[&AggregatorType::Count], 5);
}

#[test]
fn test_downsample_engine_aggregate_empty() {
    let mut engine = DownsampleEngine::new();

    let rule = DownsampleRule::new("cpu".to_string(), DownsampleInterval::Min1, DownsampleInterval::Min5)
        .with_aggregators(vec![AggregatorType::Sum, AggregatorType::Mean]);

    engine.add_rule(rule);

    let result = engine.aggregate("cpu", &[]).unwrap();

    assert_eq!(result[&AggregatorType::Sum], 0);
    assert_eq!(result[&AggregatorType::Mean], 0);
}

#[test]
fn test_downsample_engine_downsample_points() {
    let mut engine = DownsampleEngine::new();

    let rule = DownsampleRule::new("cpu_1m_to_5m".to_string(), DownsampleInterval::Min1, DownsampleInterval::Min5);

    engine.add_rule(rule);

    let timestamps = vec![0, 60, 120, 180, 240, 300, 360, 420];
    let values = vec![10, 20, 30, 40, 50, 60, 70, 80];

    let result = engine.downsample_points("cpu_1m_to_5m", &timestamps, &values).unwrap();

    assert!(!result.is_empty());
    for (ts, _val) in &result {
        assert_eq!(ts % 300, 0);
    }
}

#[test]
fn test_downsample_engine_downsample_mismatched_lengths() {
    let mut engine = DownsampleEngine::new();

    let rule = DownsampleRule::new("cpu".to_string(), DownsampleInterval::Min1, DownsampleInterval::Min5);

    engine.add_rule(rule);

    let result = engine.downsample_points("cpu", &[0, 60], &[10]);
    assert!(result.is_err());
}

#[test]
fn test_downsample_engine_nonexistent_rule() {
    let engine = DownsampleEngine::new();

    let result = engine.aggregate("nonexistent", &[10, 20]);
    assert!(result.is_err());
}

#[test]
fn downsample_points_gives_sorted_bucket_means() {
    let mut engine = DownsampleEngine::new();
    engine.add_rule(DownsampleRule::new("r".to_string(), DownsampleInterval::Min1, DownsampleInterval::Min5));
    let timestamps = vec![610, 0, 60, 300, 599, -1];
    let values = vec![7, 10, 21, 1, 2, -3];
    let result = engine.downsample_points("r", &timestamps, &values).unwrap();
    assert_eq!(result, vec![(0, 9), (300, 1), (600, 7)]);
}

#[test]
fn mean_truncates_toward_zero() {
    let mut engine = DownsampleEngine::new();
    engine.add_rule(
        DownsampleRule::new("r".to_string(), DownsampleInterval::Min1, DownsampleInterval::Min5)
            .with_aggregators(vec![AggregatorType::Mean, AggregatorType::Min, AggregatorType::Max]),
    );
    let result = engine.aggregate("r", &[-7, 2]).unwrap();
    assert_eq!(result[&AggregatorType::Mean], -2);
    assert_eq!(result[&AggregatorType::Min], -7);
    assert_eq!(result[&AggregatorType::Max], 2);
    assert_eq!(result.len(), 3);
}

#[test]
fn bucket_of_negative_timestamp_rounds_toward_zero() {
    let rule = DownsampleRule::new("r".to_string(), DownsampleInterval::Min1, DownsampleInterval::Min5);
    assert_eq!(rule.get_bucket_time(-1), 0);
    assert_eq!(rule.get_bucket_time(-301), -300);
    assert_eq!(rule.get_bucket_time(i64::MIN), -9223372036854775800);
}

#[test]
fn missing_rule_message_names_the_rule() {
    let engine = DownsampleEngine::new();
    match engine.downsample_points("nope", &[], &[]) {
        Err(opengemini_engine::error::Error::InvalidArgument(m)) => assert_eq!(m, "rule nope not found"),
        _ => panic!("expected an error"),
    }
}
