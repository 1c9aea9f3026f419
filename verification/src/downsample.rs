//! Downsampling: rules that map points to coarser time buckets, and the
//! aggregation of a series of values or of points into buckets.

use vstd::prelude::*;
use std::collections::HashMap;
use crate::error::Error;
use crate::keyed::{keyed, keys_unique, lemma_keyed_facts, lemma_keyed_update, lemma_keyed_push, lemma_keyed_remove, lemma_keyed_absent};
use crate::text::{push_str, str_eq};

verus! {

/// The spans that downsampling works with.
#[derive(Debug, Clone, Copy, PartialEq, Eq, Hash, Structural)]
pub enum DownsampleInterval {
    Min1,
    Min5,
    Min15,
    Min30,
    Hour1,
    Hour6,
    Day1,
}

/// The length of an interval in seconds.
pub open spec fn interval_seconds(i: DownsampleInterval) -> u64 {
    match i {
        DownsampleInterval::Min1 => 60,
        DownsampleInterval::Min5 => 300,
        DownsampleInterval::Min15 => 900,
        DownsampleInterval::Min30 => 1800,
        DownsampleInterval::Hour1 => 3600,
        DownsampleInterval::Hour6 => 21600,
        DownsampleInterval::Day1 => 86400,
    }
}

/// The interval of a number of seconds, when there is one.
pub open spec fn interval_of(seconds: u64) -> Option<DownsampleInterval> {
    if seconds == 60 { Some(DownsampleInterval::Min1) }
    else if seconds == 300 { Some(DownsampleInterval::Min5) }
    else if seconds == 900 { Some(DownsampleInterval::Min15) }
    else if seconds == 1800 { Some(DownsampleInterval::Min30) }
    else if seconds == 3600 { Some(DownsampleInterval::Hour1) }
    else if seconds == 21600 { Some(DownsampleInterval::Hour6) }
    else if seconds == 86400 { Some(DownsampleInterval::Day1) }
    else { None }
}

impl DownsampleInterval {
    /// The interval of a number of seconds, when there is one.
    pub fn from_seconds(seconds: u64) -> (r: Option<Self>)
        ensures
            r == interval_of(seconds),
    {
        match seconds {
            60 => Some(DownsampleInterval::Min1),
            300 => Some(DownsampleInterval::Min5),
            900 => Some(DownsampleInterval::Min15),
            1800 => Some(DownsampleInterval::Min30),
            3600 => Some(DownsampleInterval::Hour1),
            21600 => Some(DownsampleInterval::Hour6),
            86400 => Some(DownsampleInterval::Day1),
            _ => None,
        }
    }

    /// The length of the interval in seconds.
    pub fn as_seconds(&self) -> (r: u64)
        ensures
            r == interval_seconds(*self),
    {
        match self {
            DownsampleInterval::Min1 => 60,
            DownsampleInterval::Min5 => 300,
            DownsampleInterval::Min15 => 900,
            DownsampleInterval::Min30 => 1800,
            DownsampleInterval::Hour1 => 3600,
            DownsampleInterval::Hour6 => 21600,
            DownsampleInterval::Day1 => 86400,
        }
    }
}

/// An interval and its length in seconds determine each other.
pub proof fn law_interval_seconds_round_trip(i: DownsampleInterval, seconds: u64)
    ensures
        interval_of(interval_seconds(i)) == Some(i),
        interval_of(seconds) matches Some(j) ==> interval_seconds(j) == seconds,
{
}

/// The quotient of `a` by a positive `b`, truncated toward zero.
pub open spec fn trunc_div(a: int, b: int) -> int {
    if a >= 0 { a / b } else { -((-a) / b) }
}

/// The start of the bucket of `interval` seconds that holds `timestamp`:
/// the timestamp divided by the interval (truncated toward zero), times the
/// interval.
pub open spec fn bucket_of(timestamp: i64, interval: u64) -> int {
    trunc_div(timestamp as int, interval as int) * interval
}

fn magnitude(a: i64) -> (r: u64)
    ensures
        r == if a < 0 { -(a as int) } else { a as int },
{
    if a >= 0 {
        a as u64
    } else if a == i64::MIN {
        9223372036854775808u64
    } else {
        (-a) as u64
    }
}

fn negate_magnitude(m: u64) -> (r: i64)
    requires
        m <= 9223372036854775808,
    ensures
        r == -(m as int),
{
    if m == 9223372036854775808u64 {
        i64::MIN
    } else {
        -(m as i64)
    }
}

/// `a` divided by a positive `b`, truncated toward zero.
pub(crate) fn div_toward_zero(a: i64, b: u64) -> (r: i64)
    requires
        b > 0,
    ensures
        r == trunc_div(a as int, b as int),
{
    let m = magnitude(a);
    let q = m / b;
    proof {
        vstd::arithmetic::div_mod::lemma_div_is_ordered_by_denominator(m as int, 1, b as int);
        assert(m as int / 1 == m as int);
    }
    if a >= 0 {
        q as i64
    } else {
        negate_magnitude(q)
    }
}

/// A rule that downsamples points of one interval into buckets of another,
/// with the aggregates to compute.
#[derive(Debug, Clone)]
pub struct DownsampleRule {
    pub name: String,
    pub source_interval: DownsampleInterval,
    pub target_interval: DownsampleInterval,
    pub aggregators: Vec<AggregatorType>,
}

/// The abstract value of a rule.
pub struct DownsampleRuleView {
    pub name: Seq<char>,
    pub source_interval: DownsampleInterval,
    pub target_interval: DownsampleInterval,
    pub aggregators: Seq<AggregatorType>,
}

impl View for DownsampleRule {
    type V = DownsampleRuleView;

    open spec fn view(&self) -> DownsampleRuleView {
        DownsampleRuleView {
            name: self.name@,
            source_interval: self.source_interval,
            target_interval: self.target_interval,
            aggregators: self.aggregators@,
        }
    }
}

impl DownsampleRule {
    /// A rule with no aggregates.
    pub fn new(name: String, source: DownsampleInterval, target: DownsampleInterval) -> (r: Self)
        ensures
            r.name == name,
            r.source_interval == source,
            r.target_interval == target,
            r.aggregators@.len() == 0,
    {
        DownsampleRule { name, source_interval: source, target_interval: target, aggregators: Vec::new() }
    }

    /// The same rule with the given aggregates.
    pub fn with_aggregators(self, aggs: Vec<AggregatorType>) -> (r: Self)
        ensures
            r == (DownsampleRule { aggregators: aggs, ..self }),
    {
        DownsampleRule { aggregators: aggs, ..self }
    }

    /// The start of the target bucket that holds a timestamp.
    pub fn get_bucket_time(&self, timestamp: i64) -> (r: i64)
        ensures
            r == bucket_of(timestamp, interval_seconds(self.target_interval)),
    {
        let interval = self.target_interval.as_seconds();
        let m = magnitude(timestamp);
        let q = m / interval;
        let b = q * interval;
        proof {
            vstd::arithmetic::div_mod::lemma_fundamental_div_mod(m as int, interval as int);
            vstd::arithmetic::div_mod::lemma_mod_bound(m as int, interval as int);
            assert(q * interval <= m) by (nonlinear_arith)
                requires m == interval * q + m % interval, 0 <= m % interval;
        }
        if timestamp >= 0 {
            b as i64
        } else {
            negate_magnitude(b)
        }
    }
}

/// The aggregates that downsampling computes.
#[derive(Debug, Clone, Copy, PartialEq, Eq, Hash, Structural)]
pub enum AggregatorType {
    Sum,
    Min,
    Max,
    Mean,
    First,
    Last,
    Count,
}

/// The name of an aggregate.
pub open spec fn aggregator_name(a: AggregatorType) -> Seq<char> {
    match a {
        AggregatorType::Sum => "sum"@,
        AggregatorType::Min => "min"@,
        AggregatorType::Max => "max"@,
        AggregatorType::Mean => "mean"@,
        AggregatorType::First => "first"@,
        AggregatorType::Last => "last"@,
        AggregatorType::Count => "count"@,
    }
}

impl AggregatorType {
    /// The name of the aggregate.
    pub fn as_str(&self) -> (r: &'static str)
        ensures
            r@ == aggregator_name(*self),
    {
        match self {
            AggregatorType::Sum => "sum",
            AggregatorType::Min => "min",
            AggregatorType::Max => "max",
            AggregatorType::Mean => "mean",
            AggregatorType::First => "first",
            AggregatorType::Last => "last",
            AggregatorType::Count => "count",
        }
    }
}

/// The sum of a list of values.
pub open spec fn seq_sum(s: Seq<i64>) -> int
    decreases s.len(),
{
    if s.len() == 0 { 0 } else { seq_sum(s.drop_last()) + s.last() }
}

/// Whether every running sum of the list, from the left, fits in `i64`.
pub open spec fn sums_fit(s: Seq<i64>) -> bool {
    forall|i: int| 0 <= i <= s.len() ==> i64::MIN <= #[trigger] seq_sum(s.take(i)) <= i64::MAX
}

/// The least value of a non-empty list.
pub open spec fn seq_min(s: Seq<i64>) -> i64
    decreases s.len(),
{
    if s.len() <= 1 { s[0] } else if s.last() < seq_min(s.drop_last()) { s.last() } else { seq_min(s.drop_last()) }
}

/// The greatest value of a non-empty list.
pub open spec fn seq_max(s: Seq<i64>) -> i64
    decreases s.len(),
{
    if s.len() <= 1 { s[0] } else if s.last() > seq_max(s.drop_last()) { s.last() } else { seq_max(s.drop_last()) }
}

/// The greatest value of a non-empty list is at least each of its values
/// and is one of them; the least is at most each and is one of them.
pub proof fn law_max_min_bound_values(s: Seq<i64>)
    requires
        s.len() > 0,
    ensures
        forall|i: int| 0 <= i < s.len() ==> aggregate_of(AggregatorType::Max, s) >= s[i],
        exists|i: int| 0 <= i < s.len() && aggregate_of(AggregatorType::Max, s) == s[i],
        forall|i: int| 0 <= i < s.len() ==> aggregate_of(AggregatorType::Min, s) <= s[i],
        exists|i: int| 0 <= i < s.len() && aggregate_of(AggregatorType::Min, s) == s[i],
    decreases s.len(),
{
    if s.len() > 1 {
        let d = s.drop_last();
        law_max_min_bound_values(d);
        assert forall|i: int| 0 <= i < d.len() implies d[i] == s[i] by {}
        let im = choose|i: int| 0 <= i < d.len() && aggregate_of(AggregatorType::Max, d) == d[i];
        let jm = choose|i: int| 0 <= i < d.len() && aggregate_of(AggregatorType::Min, d) == d[i];
        assert(s[im] == d[im]);
        assert(s[jm] == d[jm]);
        assert forall|i: int| 0 <= i < s.len() implies aggregate_of(AggregatorType::Max, s) >= s[i] by {
            if i < d.len() { assert(s[i] == d[i]); }
        }
        assert forall|i: int| 0 <= i < s.len() implies aggregate_of(AggregatorType::Min, s) <= s[i] by {
            if i < d.len() { assert(s[i] == d[i]); }
        }
        if s.last() > seq_max(d) {
            assert(aggregate_of(AggregatorType::Max, s) == s[s.len() - 1]);
        } else {
            assert(aggregate_of(AggregatorType::Max, s) == s[im]);
        }
        if s.last() < seq_min(d) {
            assert(aggregate_of(AggregatorType::Min, s) == s[s.len() - 1]);
        } else {
            assert(aggregate_of(AggregatorType::Min, s) == s[jm]);
        }
    } else {
        assert(aggregate_of(AggregatorType::Max, s) == s[0]);
        assert(aggregate_of(AggregatorType::Min, s) == s[0]);
    }
}

/// The positional and counting aggregates of a non-empty list: the first
/// is its first value, the last its last value, the count its length; the
/// sum of a list with one more value is the sum before plus that value.
pub proof fn law_aggregates_by_position(s: Seq<i64>, x: i64)
    requires
        s.len() > 0,
        s.len() < i64::MAX,
    ensures
        aggregate_of(AggregatorType::First, s) == s[0],
        aggregate_of(AggregatorType::Last, s) == s[s.len() - 1],
        aggregate_of(AggregatorType::Count, s) == s.len(),
        aggregate_of(AggregatorType::Sum, s.push(x)) == aggregate_of(AggregatorType::Sum, s) + x,
        aggregate_of(AggregatorType::Sum, seq![x]) == x,
{
    assert(s.push(x).drop_last() =~= s);
    assert(seq![x].drop_last() =~= Seq::<i64>::empty());
    assert(seq_sum(Seq::<i64>::empty()) == 0);
    assert(seq![x].last() == x);
    assert(seq_sum(seq![x]) == seq_sum(seq![x].drop_last()) + seq![x].last());
}

/// The value of an aggregate over a non-empty list.
pub open spec fn aggregate_of(a: AggregatorType, s: Seq<i64>) -> int {
    match a {
        AggregatorType::Sum => seq_sum(s),
        AggregatorType::Min => seq_min(s) as int,
        AggregatorType::Max => seq_max(s) as int,
        AggregatorType::Mean => trunc_div(seq_sum(s), s.len() as int),
        AggregatorType::First => s[0] as int,
        AggregatorType::Last => s.last() as int,
        AggregatorType::Count => (s.len() as i64) as int,
    }
}

/// Whether the list of aggregates has a sum or a mean.
pub open spec fn needs_sum(aggs: Seq<AggregatorType>) -> bool {
    exists|i: int| 0 <= i < aggs.len() && (aggs[i] == AggregatorType::Sum || aggs[i] == AggregatorType::Mean)
}

/// The pairs of each aggregate (in order) and its value over the list:
/// zero for every aggregate when the list is empty.
pub open spec fn aggregate_pairs(aggs: Seq<AggregatorType>, s: Seq<i64>) -> Seq<(AggregatorType, i64)> {
    aggs.map_values(|a: AggregatorType| (a, if s.len() == 0 { 0i64 } else { aggregate_of(a, s) as i64 }))
}

/// The map of a list of pairs: each key to the value of its last pair.
pub open spec fn pairs_map(s: Seq<(AggregatorType, i64)>) -> Map<AggregatorType, i64>
    decreases s.len(),
{
    if s.len() == 0 {
        Map::empty()
    } else {
        pairs_map(s.drop_last()).insert(s.last().0, s.last().1)
    }
}

/// `HashMap::from_iter`: the pairs collected into a map, where a later
/// pair replaces an earlier one with the same aggregate. The keys' `Hash`
/// and `Eq` are the derived ones of a fieldless enum, which tell the
/// variants apart.
#[verifier::external_body]
fn collect_pairs(pairs: Vec<(AggregatorType, i64)>) -> (r: HashMap<AggregatorType, i64>)
    ensures
        r@ == pairs_map(pairs@),
{
    pairs.into_iter().collect()
}

fn sum_values(values: &[i64]) -> (r: i64)
    requires
        sums_fit(values@),
    ensures
        r == seq_sum(values@),
{
    let mut total: i64 = 0;
    let mut i: usize = 0;
    while i < values.len()
        invariant
            i <= values@.len(),
            sums_fit(values@),
            total == seq_sum(values@.take(i as int)),
        decreases values@.len() - i,
    {
        proof {
            assert(values@.take(i + 1).drop_last() =~= values@.take(i as int));
            assert(i64::MIN <= seq_sum(values@.take(i + 1)) <= i64::MAX);
        }
        total = total + values[i];
        i = i + 1;
    }
    proof { assert(values@.take(values@.len() as int) =~= values@); }
    total
}

fn min_value(values: &[i64]) -> (r: i64)
    requires
        values@.len() > 0,
    ensures
        r == seq_min(values@),
{
    let mut m = values[0];
    let mut i: usize = 1;
    proof { assert(values@.take(1) =~= seq![values@[0]]); }
    while i < values.len()
        invariant
            1 <= i <= values@.len(),
            m == seq_min(values@.take(i as int)),
        decreases values@.len() - i,
    {
        proof { assert(values@.take(i + 1).drop_last() =~= values@.take(i as int)); }
        if values[i] < m {
            m = values[i];
        }
        i = i + 1;
    }
    proof { assert(values@.take(values@.len() as int) =~= values@); }
    m
}

fn max_value(values: &[i64]) -> (r: i64)
    requires
        values@.len() > 0,
    ensures
        r == seq_max(values@),
{
    let mut m = values[0];
    let mut i: usize = 1;
    proof { assert(values@.take(1) =~= seq![values@[0]]); }
    while i < values.len()
        invariant
            1 <= i <= values@.len(),
            m == seq_max(values@.take(i as int)),
        decreases values@.len() - i,
    {
        proof { assert(values@.take(i + 1).drop_last() =~= values@.take(i as int)); }
        if values[i] > m {
            m = values[i];
        }
        i = i + 1;
    }
    proof { assert(values@.take(values@.len() as int) =~= values@); }
    m
}

/// The value of one aggregate over a non-empty list.
fn aggregate_one(agg: AggregatorType, values: &[i64]) -> (r: i64)
    requires
        values@.len() > 0,
        (agg == AggregatorType::Sum || agg == AggregatorType::Mean) ==> sums_fit(values@),
    ensures
        r == aggregate_of(agg, values@),
{
    match agg {
        AggregatorType::Sum => sum_values(values),
        AggregatorType::Min => min_value(values),
        AggregatorType::Max => max_value(values),
        AggregatorType::Mean => div_toward_zero(sum_values(values), values.len() as u64),
        AggregatorType::First => values[0],
        AggregatorType::Last => values[values.len() - 1],
        AggregatorType::Count => values.len() as i64,
    }
}

/// The name under which a rule is kept.
pub open spec fn rule_key() -> spec_fn(DownsampleRule) -> Seq<char> {
    |r: DownsampleRule| r.name@
}

/// The value of a kept rule.
pub open spec fn rule_val() -> spec_fn(DownsampleRule) -> DownsampleRuleView {
    |r: DownsampleRule| r@
}

/// The "rule {name} not found" message.
pub open spec fn missing_rule_message(name: Seq<char>) -> Seq<char> {
    "rule "@ + name + " not found"@
}

fn missing_rule(name: &str) -> (r: Error)
    ensures
        r matches Error::InvalidArgument(m) && m@ == missing_rule_message(name@),
{
    let mut s = String::new();
    push_str(&mut s, "rule ");
    push_str(&mut s, name);
    push_str(&mut s, " not found");
    proof { assert(Seq::<char>::empty() + "rule "@ =~= "rule "@); }
    Error::InvalidArgument(s)
}

/// The values of the points whose bucket starts at `b`, in input order.
pub open spec fn bucket_values(ts: Seq<i64>, vs: Seq<i64>, interval: u64, b: int) -> Seq<i64>
    decreases ts.len(),
{
    if ts.len() == 0 || vs.len() == 0 {
        Seq::empty()
    } else {
        let rest = bucket_values(ts.drop_last(), vs.drop_last(), interval, b);
        if bucket_of(ts.last(), interval) == b { rest.push(vs.last()) } else { rest }
    }
}

/// Whether some point has its bucket starting at `b`.
pub open spec fn has_bucket(ts: Seq<i64>, interval: u64, b: int) -> bool {
    exists|i: int| 0 <= i < ts.len() && bucket_of(ts[i], interval) == b
}

/// Whether some entry of the result starts at `b`.
pub open spec fn listed(r: Seq<(i64, i64)>, b: int) -> bool {
    exists|k: int| 0 <= k < r.len() && r[k].0 == b
}

/// Whether an entry holds a bucket start and the mean of the bucket's
/// values (truncated toward zero).
pub open spec fn mean_entry(e: (i64, i64), ts: Seq<i64>, vs: Seq<i64>, interval: u64) -> bool {
    e.1 == trunc_div(seq_sum(bucket_values(ts, vs, interval, e.0 as int)), bucket_values(ts, vs, interval, e.0 as int).len() as int)
}

/// Whether the result of downsampling is right: one entry per bucket that
/// holds a point, in increasing order of bucket start, each with the mean
/// of its bucket's values (truncated toward zero).
pub open spec fn downsampled(r: Seq<(i64, i64)>, ts: Seq<i64>, vs: Seq<i64>, interval: u64) -> bool {
    &&& forall|i: int, j: int| 0 <= i < j < r.len() ==> r[i].0 < r[j].0
    &&& forall|k: int| 0 <= k < r.len() ==> has_bucket(ts, interval, #[trigger] r[k].0 as int)
    &&& forall|i: int| 0 <= i < ts.len() ==> #[trigger] listed(r, bucket_of(ts[i], interval))
    &&& forall|k: int| 0 <= k < r.len() ==> mean_entry(#[trigger] r[k], ts, vs, interval)
}

/// Whether every one of the first `j` points has its bucket among the keys.
pub open spec fn keys_cover(keys: Seq<i64>, ts: Seq<i64>, interval: u64, j: int) -> bool {
    forall|t: int| 0 <= t < j ==> exists|k: int| 0 <= k < keys.len() && keys[k] == bucket_of(#[trigger] ts[t], interval)
}

proof fn lemma_cover_use(keys: Seq<i64>, ts: Seq<i64>, interval: u64, j: int, t: int) -> (k: int)
    requires
        keys_cover(keys, ts, interval, j),
        0 <= t < j,
    ensures
        0 <= k < keys.len(),
        keys[k] == bucket_of(ts[t], interval),
{
    choose|k: int| 0 <= k < keys.len() && keys[k] == bucket_of(ts[t], interval)
}

/// Runs downsampling rules.
pub struct DownsampleEngine {
    rules: Vec<DownsampleRule>,
}

impl DownsampleEngine {
    #[verifier::type_invariant]
    closed spec fn inv(&self) -> bool {
        keys_unique(self.rules@, rule_key())
    }

    /// The rules by name.
    pub closed spec fn rules(&self) -> Map<Seq<char>, DownsampleRuleView> {
        keyed(self.rules@, rule_key(), rule_val())
    }

    /// The rules in the order the engine keeps them.
    pub closed spec fn stored(&self) -> Seq<DownsampleRuleView> {
        self.rules@.map_values(|r: DownsampleRule| r@)
    }

    /// An engine with no rules.
    pub fn new() -> (r: Self)
        ensures
            r.rules() == Map::<Seq<char>, DownsampleRuleView>::empty(),
            r.stored().len() == 0,
    {
        let r = DownsampleEngine { rules: Vec::new() };
        assert(r.rules() =~= Map::<Seq<char>, DownsampleRuleView>::empty());
        r
    }

    fn find(&self, name: &str) -> (r: Option<usize>)
        ensures
            match r {
                Some(i) => i < self.rules@.len() && self.rules@[i as int].name@ == name@
                    && self.rules().contains_key(name@) && self.rules()[name@] == self.rules@[i as int]@,
                None => !self.rules().contains_key(name@),
            },
    {
        proof { use_type_invariant(self); }
        let mut i: usize = 0;
        while i < self.rules.len()
            invariant
                i <= self.rules@.len(),
                keys_unique(self.rules@, rule_key()),
                forall|j: int| 0 <= j < i ==> self.rules@[j].name@ != name@,
            decreases self.rules@.len() - i,
        {
            if str_eq(self.rules[i].name.as_str(), name) {
                proof {
                    lemma_keyed_facts(self.rules@, rule_key(), rule_val());
                    assert(rule_key()(self.rules@[i as int]) == name@);
                }
                return Some(i);
            }
            i = i + 1;
        }
        proof { lemma_keyed_absent(self.rules@, rule_key(), rule_val(), name@); }
        None
    }

    /// Adds a rule, replacing one of the same name.
    pub fn add_rule(&mut self, rule: DownsampleRule)
        ensures
            final(self).rules() == old(self).rules().insert(rule.name@, rule@),
    {
        proof { use_type_invariant(&*self); }
        let mut rules: Vec<DownsampleRule> = Vec::new();
        std::mem::swap(&mut rules, &mut self.rules);
        let holder = DownsampleEngine { rules };
        let found = holder.find(rule.name.as_str());
        let mut rules = holder.rules;
        match found {
            Some(i) => {
                proof { lemma_keyed_update(rules@, rule_key(), rule_val(), i as int, rule); }
                rules.set(i, rule);
            },
            None => {
                proof { lemma_keyed_push(rules@, rule_key(), rule_val(), rule); }
                rules.push(rule);
            },
        }
        self.rules = rules;
    }

    /// Drops a rule; whether there was one.
    pub fn remove_rule(&mut self, name: &str) -> (r: bool)
        ensures
            r == old(self).rules().contains_key(name@),
            final(self).rules() == old(self).rules().remove(name@),
    {
        proof { use_type_invariant(&*self); }
        match self.find(name) {
            Some(i) => {
                proof { lemma_keyed_remove(self.rules@, rule_key(), rule_val(), i as int); }
                let mut rules: Vec<DownsampleRule> = Vec::new();
                std::mem::swap(&mut rules, &mut self.rules);
                rules.remove(i);
                self.rules = rules;
                true
            },
            None => {
                proof { assert(old(self).rules().remove(name@) =~= old(self).rules()); }
                false
            },
        }
    }

    /// The rule with the given name.
    pub fn get_rule(&self, name: &str) -> (r: Option<&DownsampleRule>)
        ensures
            match r {
                Some(rule) => self.rules().contains_key(name@) && self.rules()[name@] == rule@,
                None => !self.rules().contains_key(name@),
            },
    {
        match self.find(name) {
            Some(i) => Some(&self.rules[i]),
            None => None,
        }
    }

    /// All rules, in the order the engine keeps them.
    pub fn list_rules(&self) -> (r: Vec<&DownsampleRule>)
        ensures
            r@.len() == self.stored().len(),
            forall|i: int| 0 <= i < r@.len() ==> (#[trigger] r@[i])@ == self.stored()[i],
            self.stored().len() == self.rules().len(),
    {
        proof {
            use_type_invariant(self);
            lemma_keyed_facts(self.rules@, rule_key(), rule_val());
        }
        let mut r: Vec<&DownsampleRule> = Vec::new();
        let mut i: usize = 0;
        while i < self.rules.len()
            invariant
                i <= self.rules@.len(),
                r@.len() == i,
                forall|j: int| 0 <= j < i ==> (#[trigger] r@[j])@ == self.rules@[j]@,
            decreases self.rules@.len() - i,
        {
            r.push(&self.rules[i]);
            i = i + 1;
        }
        r
    }

    /// Each aggregate of the named rule over the values (zero for all of
    /// them when there are no values); an error when there is no such rule.
    pub fn aggregate(&self, rule_name: &str, values: &[i64]) -> (r: Result<HashMap<AggregatorType, i64>, Error>)
        requires
            self.rules().contains_key(rule_name@) && values@.len() > 0
                && needs_sum(self.rules()[rule_name@].aggregators) ==> sums_fit(values@),
        ensures
            !self.rules().contains_key(rule_name@) ==> (r matches Err(Error::InvalidArgument(m))
                && m@ == missing_rule_message(rule_name@)),
            self.rules().contains_key(rule_name@) ==> (r matches Ok(map)
                && map@ == pairs_map(aggregate_pairs(self.rules()[rule_name@].aggregators, values@))),
    {
        let i = match self.find(rule_name) {
            Some(i) => i,
            None => return Err(missing_rule(rule_name)),
        };
        let rule = &self.rules[i];
        let ghost aggs = rule.aggregators@;
        let mut pairs: Vec<(AggregatorType, i64)> = Vec::new();
        let mut k: usize = 0;
        while k < rule.aggregators.len()
            invariant
                k <= aggs.len(),
                aggs == rule.aggregators@,
                values@.len() > 0 && needs_sum(aggs) ==> sums_fit(values@),
                pairs@ == aggregate_pairs(aggs, values@).take(k as int),
            decreases aggs.len() - k,
        {
            let agg = rule.aggregators[k];
            let value = if values.len() == 0 {
                0
            } else {
                proof {
                    if agg == AggregatorType::Sum || agg == AggregatorType::Mean {
                        assert(needs_sum(aggs)) by { assert(aggs[k as int] == agg); }
                    }
                }
                aggregate_one(agg, values)
            };
            pairs.push((agg, value));
            proof {
                assert(pairs@ =~= aggregate_pairs(aggs, values@).take(k + 1));
            }
            k = k + 1;
        }
        proof { assert(aggregate_pairs(aggs, values@).take(aggs.len() as int) =~= aggregate_pairs(aggs, values@)); }
        Ok(collect_pairs(pairs))
    }

    /// Downsamples points by the named rule: the points go into buckets of
    /// the rule's target interval, and each bucket that holds a point gives
    /// its start and the mean of its values (truncated toward zero), in
    /// increasing order of start. An error when there is no such rule or
    /// the lists differ in length.
    pub fn downsample_points(&self, rule_name: &str, timestamps: &[i64], values: &[i64]) -> (r: Result<Vec<(i64, i64)>, Error>)
        requires
            self.rules().contains_key(rule_name@) && timestamps@.len() == values@.len() ==>
                forall|b: int| #[trigger] sums_fit(bucket_values(timestamps@, values@,
                    interval_seconds(self.rules()[rule_name@].target_interval), b)),
        ensures
            !self.rules().contains_key(rule_name@) ==> (r matches Err(Error::InvalidArgument(m))
                && m@ == missing_rule_message(rule_name@)),
            self.rules().contains_key(rule_name@) && timestamps@.len() != values@.len() ==>
                (r matches Err(Error::InvalidArgument(m)) && m@ == "timestamps and values must have same length"@),
            self.rules().contains_key(rule_name@) && timestamps@.len() == values@.len() ==> (r matches Ok(points)
                && downsampled(points@, timestamps@, values@, interval_seconds(self.rules()[rule_name@].target_interval))),
    {
        let i = match self.find(rule_name) {
            Some(i) => i,
            None => return Err(missing_rule(rule_name)),
        };
        if timestamps.len() != values.len() {
            return Err(Error::InvalidArgument(String::from_str("timestamps and values must have same length")));
        }
        let rule = &self.rules[i];
        let ghost iv = interval_seconds(rule.target_interval);
        let n = timestamps.len();
        let mut keys: Vec<i64> = Vec::new();
        let mut j: usize = 0;
        while j < n
            invariant
                n == timestamps@.len(),
                j <= n,
                iv == interval_seconds(rule.target_interval),
                forall|a: int, b: int| 0 <= a < b < keys@.len() ==> keys@[a] < keys@[b],
                forall|k: int| 0 <= k < keys@.len() ==> has_bucket(timestamps@.take(j as int), iv, #[trigger] keys@[k] as int),
                keys_cover(keys@, timestamps@, iv, j as int),
            decreases n - j,
        {
            let b = rule.get_bucket_time(timestamps[j]);
            let ghost before = keys@;
            let mut p: usize = 0;
            while p < keys.len() && keys[p] < b
                invariant
                    p <= keys@.len(),
                    keys@ == before,
                    forall|k: int| 0 <= k < p ==> keys@[k] < b,
                decreases keys@.len() - p,
            {
                p = p + 1;
            }
            proof {
                assert forall|k: int| 0 <= k < keys@.len() implies has_bucket(timestamps@.take(j + 1), iv, #[trigger] keys@[k] as int) by {
                    let t = choose|t: int| 0 <= t < timestamps@.take(j as int).len() && bucket_of(timestamps@.take(j as int)[t], iv) == keys@[k] as int;
                    assert(timestamps@.take(j + 1)[t] == timestamps@.take(j as int)[t]);
                }
            }
            if p < keys.len() && keys[p] == b {
                proof {
                    assert forall|t: int| 0 <= t < j + 1 implies exists|k: int| 0 <= k < keys@.len() && keys@[k] == #[trigger] bucket_of(timestamps@[t], iv) by {
                        if t == j { assert(keys@[p as int] == bucket_of(timestamps@[t], iv)); }
                        else { assert(keys_cover(keys@, timestamps@, iv, j as int)); }
                    }
                }
            } else {
                keys.insert(p, b);
                proof {
                    assert(keys@ == before.insert(p as int, b));
                    assert forall|a: int, c: int| 0 <= a < c < keys@.len() implies keys@[a] < keys@[c] by {
                        if a < p && c > p { assert(keys@[c] == before[c - 1]); }
                        else if a == p && c > p { assert(keys@[c] == before[c - 1]); assert(before[c - 1] >= b || c - 1 >= p); }
                    }
                    assert forall|k: int| 0 <= k < keys@.len() implies has_bucket(timestamps@.take(j + 1), iv, #[trigger] keys@[k] as int) by {
                        if k == p {
                            assert(timestamps@.take(j + 1)[j as int] == timestamps@[j as int]);
                        } else if k < p {
                            assert(keys@[k] == before[k]);
                        } else {
                            assert(keys@[k] == before[k - 1]);
                        }
                    }
                    assert forall|t: int| 0 <= t < j + 1 implies exists|k: int| 0 <= k < keys@.len() && keys@[k] == #[trigger] bucket_of(timestamps@[t], iv) by {
                        if t == j {
                            assert(keys@[p as int] == b);
                        } else {
                            assert(keys_cover(before, timestamps@, iv, j as int));
                            let k0 = choose|k: int| 0 <= k < before.len() && before[k] == bucket_of(timestamps@[t], iv);
                            if k0 < p { assert(keys@[k0] == before[k0]); } else { assert(keys@[k0 + 1] == before[k0]); }
                        }
                    }
                }
            }
            j = j + 1;
        }
        proof {
            assert(timestamps@.take(n as int) =~= timestamps@);
            assert(j == n);
        }
        let mut results: Vec<(i64, i64)> = Vec::new();
        let mut k: usize = 0;
        while k < keys.len()
            invariant
                n == timestamps@.len(),
                n == values@.len(),
                iv == interval_seconds(rule.target_interval),
                k <= keys@.len(),
                forall|b: int| #[trigger] sums_fit(bucket_values(timestamps@, values@, iv, b)),
                results@.len() == k,
                forall|t: int| 0 <= t < k ==> (#[trigger] results@[t]).0 == keys@[t],
                forall|t: int| 0 <= t < k ==> mean_entry(#[trigger] results@[t], timestamps@, values@, iv),
                forall|a: int, b: int| 0 <= a < b < keys@.len() ==> keys@[a] < keys@[b],
                forall|t: int| 0 <= t < keys@.len() ==> has_bucket(timestamps@, iv, #[trigger] keys@[t] as int),
                keys_cover(keys@, timestamps@, iv, n as int),
            decreases keys@.len() - k,
        {
            let key = keys[k];
            let bucket = collect_bucket(rule, timestamps, values, key);
            proof { lemma_bucket_nonempty(timestamps@, values@, iv, key as int); }
            let mean = self.aggregate_internal(bucket.as_slice());
            results.push((key, mean));
            k = k + 1;
        }
        proof {
            assert(iv == interval_seconds(self.rules()[rule_name@].target_interval));
            assert forall|t: int| 0 <= t < timestamps@.len() implies
                #[trigger] listed(results@, bucket_of(timestamps@[t], interval_seconds(self.rules()[rule_name@].target_interval))) by {
                let q = lemma_cover_use(keys@, timestamps@, iv, n as int, t);
                assert(results@[q].0 == keys@[q]);
            }
            assert forall|q: int| 0 <= q < results@.len() implies has_bucket(timestamps@, iv, #[trigger] results@[q].0 as int) by {
                assert(results@[q].0 == keys@[q]);
            }
        }
        Ok(results)
    }

    /// The mean of the values of one bucket (truncated toward zero), zero
    /// for a bucket without values.
    fn aggregate_internal(&self, values: &[i64]) -> (r: i64)
        requires
            sums_fit(values@),
        ensures
            r == if values@.len() == 0 { 0 } else { trunc_div(seq_sum(values@), values@.len() as int) },
    {
        if values.len() == 0 {
            return 0;
        }
        div_toward_zero(sum_values(values), values.len() as u64)
    }
}

proof fn lemma_bucket_nonempty(ts: Seq<i64>, vs: Seq<i64>, interval: u64, b: int)
    requires
        ts.len() == vs.len(),
        has_bucket(ts, interval, b),
    ensures
        bucket_values(ts, vs, interval, b).len() > 0,
    decreases ts.len(),
{
    if ts.len() > 0 {
        if bucket_of(ts.last(), interval) != b {
            let i = choose|i: int| 0 <= i < ts.len() && bucket_of(ts[i], interval) == b;
            assert(ts.drop_last()[i] == ts[i]);
            lemma_bucket_nonempty(ts.drop_last(), vs.drop_last(), interval, b);
        }
    }
}

/// The values of the points in the bucket that starts at `key`, in input
/// order.
fn collect_bucket(rule: &DownsampleRule, timestamps: &[i64], values: &[i64], key: i64) -> (r: Vec<i64>)
    requires
        timestamps@.len() == values@.len(),
    ensures
        r@ == bucket_values(timestamps@, values@, interval_seconds(rule.target_interval), key as int),
{
    let ghost iv = interval_seconds(rule.target_interval);
    let mut r: Vec<i64> = Vec::new();
    let mut i: usize = 0;
    while i < timestamps.len()
        invariant
            timestamps@.len() == values@.len(),
            iv == interval_seconds(rule.target_interval),
            i <= timestamps@.len(),
            r@ == bucket_values(timestamps@.take(i as int), values@.take(i as int), iv, key as int),
        decreases timestamps@.len() - i,
    {
        proof {
            assert(timestamps@.take(i + 1).drop_last() =~= timestamps@.take(i as int));
            assert(values@.take(i + 1).drop_last() =~= values@.take(i as int));
        }
        if rule.get_bucket_time(timestamps[i]) == key {
            r.push(values[i]);
        }
        i = i + 1;
    }
    proof {
        assert(timestamps@.take(timestamps@.len() as int) =~= timestamps@);
        assert(values@.take(values@.len() as int) =~= values@);
    }
    r
}

impl Default for DownsampleEngine {
    fn default() -> (r: Self)
        ensures
            r.rules() == Map::<Seq<char>, DownsampleRuleView>::empty(),
    {
        Self::new()
    }
}

/// A bucket start is a multiple of the interval, and a non-negative
/// timestamp lies in the interval that starts at its bucket.
pub proof fn law_bucket_holds_timestamp(timestamp: i64, interval: u64)
    requires
        interval > 0,
    ensures
        bucket_of(timestamp, interval) % (interval as int) == 0,
        timestamp >= 0 ==> bucket_of(timestamp, interval) <= timestamp < bucket_of(timestamp, interval) + interval,
{
    let t = timestamp as int;
    let d = interval as int;
    let q = trunc_div(t, d);
    vstd::arithmetic::div_mod::lemma_mod_multiples_basic(q, d);
    if t >= 0 {
        vstd::arithmetic::div_mod::lemma_fundamental_div_mod(t, d);
        vstd::arithmetic::div_mod::lemma_mod_bound(t, d);
        assert(q * d <= t < q * d + d) by (nonlinear_arith)
            requires t == d * q + t % d, 0 <= t % d < d;
    }
}

} // verus!
