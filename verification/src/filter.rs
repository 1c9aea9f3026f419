//! Whether a row meets a filter: conditions joined by `AND` and `OR`, each
//! comparing a field with a value. How a field's value compares with the
//! value of a condition is worked out by the caller (the values may be
//! floating point); this decides the rest.

use vstd::prelude::*;

verus! {

/// How a condition compares the field with its value.
#[derive(Debug, Clone, Copy, PartialEq, Eq, Structural)]
pub enum FilterOp {
    Eq,
    Ne,
    Gt,
    Gte,
    Lt,
    Lte,
}

/// The order of two values, where they have one.
#[derive(Debug, Clone, Copy, PartialEq, Eq, Structural)]
pub enum ValueOrder {
    Less,
    Equal,
    Greater,
    Unordered,
}

/// What a row has for the field of one condition: nothing, or a value
/// that is or is not equal to the condition's value and compares with it
/// in some order.
#[derive(Debug, Clone, Copy, PartialEq, Eq, Structural)]
pub enum FieldComparison {
    Missing,
    Present { equal: bool, order: ValueOrder },
}

/// A filter: conditions joined by `AND` and `OR`; a condition names its
/// operator and, by position, the comparison of the row's field with its
/// value.
#[derive(Debug)]
pub enum Filter {
    And(Box<Filter>, Box<Filter>),
    Or(Box<Filter>, Box<Filter>),
    Condition(FilterOp, usize),
}

/// Whether one condition holds: a missing field meets only `!=`; a present
/// one meets `=` when equal, `!=` when not, and the order comparisons when
/// its order is one of theirs.
pub open spec fn condition_holds(op: FilterOp, c: FieldComparison) -> bool {
    match c {
        FieldComparison::Missing => op == FilterOp::Ne,
        FieldComparison::Present { equal, order } => match op {
            FilterOp::Eq => equal,
            FilterOp::Ne => !equal,
            FilterOp::Gt => order == ValueOrder::Greater,
            FilterOp::Gte => order == ValueOrder::Greater || order == ValueOrder::Equal,
            FilterOp::Lt => order == ValueOrder::Less,
            FilterOp::Lte => order == ValueOrder::Less || order == ValueOrder::Equal,
        },
    }
}

/// Whether every condition of a filter names a comparison that is there.
pub open spec fn refers_within(f: Filter, n: nat) -> bool
    decreases f,
{
    match f {
        Filter::And(a, b) => refers_within(*a, n) && refers_within(*b, n),
        Filter::Or(a, b) => refers_within(*a, n) && refers_within(*b, n),
        Filter::Condition(_, i) => i < n,
    }
}

/// Whether a row, by the comparisons of its fields, meets a filter.
pub open spec fn filter_holds(f: Filter, cs: Seq<FieldComparison>) -> bool
    decreases f,
{
    match f {
        Filter::And(a, b) => filter_holds(*a, cs) && filter_holds(*b, cs),
        Filter::Or(a, b) => filter_holds(*a, cs) || filter_holds(*b, cs),
        Filter::Condition(op, i) => condition_holds(op, cs[i as int]),
    }
}

/// Whether one condition holds, computed.
pub fn condition_met(op: FilterOp, c: FieldComparison) -> (r: bool)
    ensures
        r == condition_holds(op, c),
{
    match c {
        FieldComparison::Missing => match op {
            FilterOp::Ne => true,
            _ => false,
        },
        FieldComparison::Present { equal, order } => match op {
            FilterOp::Eq => equal,
            FilterOp::Ne => !equal,
            FilterOp::Gt => match order { ValueOrder::Greater => true, _ => false },
            FilterOp::Gte => match order { ValueOrder::Greater | ValueOrder::Equal => true, _ => false },
            FilterOp::Lt => match order { ValueOrder::Less => true, _ => false },
            FilterOp::Lte => match order { ValueOrder::Less | ValueOrder::Equal => true, _ => false },
        },
    }
}

/// Whether a row, by the comparisons of its fields, meets a filter; the
/// second side of `AND` and `OR` is looked at only where the first does
/// not decide.
pub fn evaluate(f: &Filter, cs: &Vec<FieldComparison>) -> (r: bool)
    requires
        refers_within(*f, cs@.len()),
    ensures
        r == filter_holds(*f, cs@),
    decreases f,
{
    match f {
        Filter::And(a, b) => evaluate(a, cs) && evaluate(b, cs),
        Filter::Or(a, b) => evaluate(a, cs) || evaluate(b, cs),
        Filter::Condition(op, i) => condition_met(*op, cs[*i]),
    }
}

} // verus!
