use opengemini_engine::filter::{evaluate, FieldComparison, Filter, FilterOp, ValueOrder};

fn present(equal: bool, order: ValueOrder) -> FieldComparison {
    FieldComparison::Present { equal, order }
}

#[test]
fn test_filter_and_or_and_missing_fields() {
    let cs = vec![present(true, ValueOrder::Equal), present(false, ValueOrder::Greater), FieldComparison::Missing];
    let and = Filter::And(Box::new(Filter::Condition(FilterOp::Eq, 0)), Box::new(Filter::Condition(FilterOp::Gt, 1)));
    assert!(evaluate(&and, &cs));
    let and2 = Filter::And(Box::new(Filter::Condition(FilterOp::Eq, 0)), Box::new(Filter::Condition(FilterOp::Lt, 1)));
    assert!(!evaluate(&and2, &cs));
    let or = Filter::Or(Box::new(Filter::Condition(FilterOp::Lt, 1)), Box::new(Filter::Condition(FilterOp::Ne, 2)));
    assert!(evaluate(&or, &cs));
    assert!(!evaluate(&Filter::Condition(FilterOp::Eq, 2), &cs));
    assert!(!evaluate(&Filter::Condition(FilterOp::Gte, 2), &cs));
    assert!(evaluate(&Filter::Condition(FilterOp::Gte, 0), &cs));
    let text = vec![present(true, ValueOrder::Unordered)];
    assert!(evaluate(&Filter::Condition(FilterOp::Eq, 0), &text));
    assert!(!evaluate(&Filter::Condition(FilterOp::Lte, 0), &text));
}
