//! OpenTelemetry ingestion: traces, metrics and logs, read from their
//! export requests and turned into rows of the `_otel` database.
//!
//! A row is given as the table it goes to, its tags and fields in the
//! order they are set (a later one of a name replaces an earlier one) and
//! its timestamp; float values are [`FloatCell`]s and the names of
//! quantile fields carry the quantile's bits.

use vstd::prelude::*;
use vstd::string::*;
use crate::arrow_flight::{CellValue, FloatCell, copy_float_cell};
use crate::text::{hex_seq, push_str, push_char, nibble_to_char, append_u64, dec_nat};

verus! {

/// Which signals are accepted.
#[derive(Debug, Clone)]
pub struct OtelConfig {
    pub enabled: bool,
    pub trace_enabled: bool,
    pub metric_enabled: bool,
    pub log_enabled: bool,
}

impl Default for OtelConfig {
    fn default() -> (r: Self)
        ensures
            r.enabled && r.trace_enabled && r.metric_enabled && r.log_enabled,
    {
        OtelConfig { enabled: true, trace_enabled: true, metric_enabled: true, log_enabled: true }
    }
}

/// A span.
#[derive(Debug, Clone)]
pub struct TraceData {
    pub trace_id: Vec<u8>,
    pub span_id: Vec<u8>,
    pub parent_span_id: Option<Vec<u8>>,
    pub name: String,
    pub start_time_unix_nano: u64,
    pub end_time_unix_nano: u64,
    pub attributes: Vec<(String, String)>,
    pub status_code: i32,
    pub status_message: String,
    pub resource_attributes: Vec<(String, String)>,
}

/// The kinds of metric.
#[derive(Debug, Clone, Copy, PartialEq, Eq, Structural)]
pub enum MetricType {
    Gauge,
    Counter,
    Histogram,
    Summary,
}

/// A bucket of a histogram point.
#[derive(Debug, Clone)]
pub struct HistogramBucket {
    pub count: u64,
    pub sum: FloatCell,
    pub boundaries: Vec<FloatCell>,
}

/// A quantile of a summary point: the bits of the quantile and its value.
#[derive(Debug, Clone)]
pub struct QuantileValue {
    pub quantile_bits: u64,
    pub value: FloatCell,
}

/// A point of a metric.
#[derive(Debug, Clone)]
pub struct MetricDataPoint {
    pub time_unix_nano: u64,
    pub value: FloatCell,
    pub attributes: Vec<(String, String)>,
    pub count: Option<u64>,
    pub sum: Option<FloatCell>,
    pub buckets: Option<Vec<HistogramBucket>>,
    pub quantile_values: Option<Vec<QuantileValue>>,
}

/// A metric and its points.
#[derive(Debug, Clone)]
pub struct MetricData {
    pub name: String,
    pub description: String,
    pub unit: String,
    pub metric_type: MetricType,
    pub data_points: Vec<MetricDataPoint>,
    pub resource_attributes: Vec<(String, String)>,
}

/// A log record.
#[derive(Debug, Clone)]
pub struct LogData {
    pub time_unix_nano: u64,
    pub observed_time_unix_nano: u64,
    pub severity_number: i32,
    pub severity_text: String,
    pub body: String,
    pub attributes: Vec<(String, String)>,
    pub resource_attributes: Vec<(String, String)>,
    pub trace_id: Option<Vec<u8>>,
    pub span_id: Option<Vec<u8>>,
}

/// The name of a field of a row: a text, or `quantile_` and a quantile
/// (given by its bits) as the float prints.
#[derive(Debug, Clone)]
pub enum FieldName {
    Text(String),
    Quantile(u64),
}

/// A row for the `_otel` database.
#[derive(Debug, Clone)]
pub struct OtelRow {
    pub table: String,
    pub tags: Vec<(String, String)>,
    pub fields: Vec<(FieldName, CellValue)>,
    pub timestamp: i64,
}

// ----- text -----

/// Lower-case hexadecimal, two digits per byte.
pub fn hex_encode(data: &[u8]) -> (r: String)
    ensures
        r@ == hex_seq(data@),
{
    let mut s = String::new();
    let mut i: usize = 0;
    while i < data.len()
        invariant
            i <= data@.len(),
            s@ == hex_seq(data@.subrange(0, i as int)),
        decreases data@.len() - i,
    {
        let b = data[i];
        proof { assert(data@.subrange(0, i + 1).drop_last() =~= data@.subrange(0, i as int)); }
        push_char(&mut s, nibble_to_char(b / 16));
        push_char(&mut s, nibble_to_char(b % 16));
        proof {
            assert(s@ =~= hex_seq(data@.subrange(0, i + 1)));
        }
        i = i + 1;
    }
    proof { assert(data@.subrange(0, data@.len() as int) =~= data@); }
    s
}

/// The name of a severity number.
pub open spec fn severity_name(n: i32) -> Seq<char> {
    if n == 1 { "TRACE"@ }
    else if n == 2 { "DEBUG"@ }
    else if n == 3 { "INFO"@ }
    else if n == 4 { "WARN"@ }
    else if n == 5 { "ERROR"@ }
    else if n == 6 { "FATAL"@ }
    else { "UNKNOWN"@ }
}

/// The name of a severity number: `TRACE` to `FATAL` for one to six,
/// `UNKNOWN` otherwise.
pub fn get_severity_text(severity_number: i32) -> (r: String)
    ensures
        r@ == severity_name(severity_number),
{
    let s = if severity_number == 1 { "TRACE" }
        else if severity_number == 2 { "DEBUG" }
        else if severity_number == 3 { "INFO" }
        else if severity_number == 4 { "WARN" }
        else if severity_number == 5 { "ERROR" }
        else if severity_number == 6 { "FATAL" }
        else { "UNKNOWN" };
    s.to_owned()
}

/// The name of a metric kind.
pub open spec fn metric_type_name(t: MetricType) -> Seq<char> {
    match t {
        MetricType::Gauge => "Gauge"@,
        MetricType::Counter => "Counter"@,
        MetricType::Histogram => "Histogram"@,
        MetricType::Summary => "Summary"@,
    }
}

fn metric_type_text(t: MetricType) -> (r: String)
    ensures
        r@ == metric_type_name(t),
{
    match t {
        MetricType::Gauge => "Gauge".to_owned(),
        MetricType::Counter => "Counter".to_owned(),
        MetricType::Histogram => "Histogram".to_owned(),
        MetricType::Summary => "Summary".to_owned(),
    }
}


// ----- rows -----

/// The abstract value of a field name.
pub enum FieldNameView {
    Text(Seq<char>),
    Quantile(u64),
}

/// The abstract value of a row.
pub struct OtelRowView {
    pub table: Seq<char>,
    pub tags: Seq<(Seq<char>, Seq<char>)>,
    pub fields: Seq<(FieldNameView, crate::arrow_flight::CellView)>,
    pub timestamp: i64,
}

/// The characters of each pair of strings.
pub open spec fn pairs(v: Seq<(String, String)>) -> Seq<(Seq<char>, Seq<char>)> {
    v.map_values(|p: (String, String)| (p.0@, p.1@))
}

impl View for FieldName {
    type V = FieldNameView;

    open spec fn view(&self) -> FieldNameView {
        match self {
            FieldName::Text(t) => FieldNameView::Text(t@),
            FieldName::Quantile(q) => FieldNameView::Quantile(*q),
        }
    }
}

impl View for OtelRow {
    type V = OtelRowView;

    open spec fn view(&self) -> OtelRowView {
        OtelRowView {
            table: self.table@,
            tags: pairs(self.tags@),
            fields: self.fields@.map_values(|f: (FieldName, CellValue)| (f.0@, f.1@)),
            timestamp: self.timestamp,
        }
    }
}

/// A text field name with an integer value.
pub open spec fn int_field(name: Seq<char>, v: i64) -> (FieldNameView, crate::arrow_flight::CellView) {
    (FieldNameView::Text(name), crate::arrow_flight::CellView::Integer(v))
}

/// A text field name with the UTF-8 bytes of a text.
pub open spec fn text_field(name: Seq<char>, t: Seq<char>) -> (FieldNameView, crate::arrow_flight::CellView) {
    (FieldNameView::Text(name), crate::arrow_flight::CellView::Bytes(vstd::utf8::encode_utf8(t)))
}

/// The timestamp of a row: nanoseconds, read as signed, in microseconds
/// (cut toward zero).
pub open spec fn micros_of(nanos: u64) -> i64 {
    crate::downsample::trunc_div((nanos as i64) as int, 1000) as i64
}

/// The row of a span in `otel_traces`: the resource attributes, the span
/// attributes and `span_name` as tags; the hexadecimal ids, the times, the
/// duration, the status code and a non-empty status message as fields.
pub open spec fn trace_row_of(t: TraceData) -> OtelRowView {
    OtelRowView {
        table: "otel_traces"@,
        tags: pairs(t.resource_attributes@) + pairs(t.attributes@) + seq![("span_name"@, t.name@)],
        fields: seq![text_field("trace_id"@, hex_seq(t.trace_id@)), text_field("span_id"@, hex_seq(t.span_id@))]
            + (match t.parent_span_id {
                Some(p) => seq![text_field("parent_span_id"@, hex_seq(p@))],
                None => Seq::empty(),
            })
            + seq![
                int_field("start_time"@, t.start_time_unix_nano as i64),
                int_field("end_time"@, t.end_time_unix_nano as i64),
                int_field("duration_ns"@, (t.end_time_unix_nano - t.start_time_unix_nano) as i64),
                int_field("status_code"@, t.status_code as i64),
            ]
            + (if t.status_message@.len() == 0 { Seq::empty() } else { seq![text_field("status_message"@, t.status_message@)] }),
        timestamp: micros_of(t.start_time_unix_nano),
    }
}

fn named(name: &str) -> (r: FieldName)
    ensures
        r@ == FieldNameView::Text(name@),
{
    FieldName::Text(name.to_owned())
}

pub(crate) fn append_pairs(v: &mut Vec<(String, String)>, more: &Vec<(String, String)>)
    ensures
        pairs(final(v)@) == pairs(old(v)@) + pairs(more@),
{
    let mut i: usize = 0;
    while i < more.len()
        invariant
            i <= more@.len(),
            pairs(v@) == pairs(old(v)@) + pairs(more@.subrange(0, i as int)),
        decreases more@.len() - i,
    {
        let p = (more[i].0.clone(), more[i].1.clone());
        proof {
            assert(pairs(v@.push(p)) =~= pairs(v@).push((p.0@, p.1@)));
            assert(pairs(more@.subrange(0, i + 1)) =~= pairs(more@.subrange(0, i as int)).push((p.0@, p.1@)));
        }
        v.push(p);
        i = i + 1;
    }
    proof { assert(more@.subrange(0, more@.len() as int) =~= more@); }
}

fn push_field(v: &mut Vec<(FieldName, CellValue)>, name: FieldName, value: CellValue)
    ensures
        final(v)@.map_values(|f: (FieldName, CellValue)| (f.0@, f.1@))
            == old(v)@.map_values(|f: (FieldName, CellValue)| (f.0@, f.1@)).push((name@, value@)),
{
    let ghost before = v@;
    v.push((name, value));
    proof {
        assert(v@.map_values(|f: (FieldName, CellValue)| (f.0@, f.1@))
            =~= before.map_values(|f: (FieldName, CellValue)| (f.0@, f.1@)).push((name@, value@)));
    }
}

fn micros(nanos: u64) -> (r: i64)
    ensures
        r == micros_of(nanos),
{
    crate::downsample::div_toward_zero(nanos as i64, 1000)
}

/// The row of a span; its end must not come before its start.
pub fn trace_row(trace: &TraceData) -> (r: OtelRow)
    requires
        trace.end_time_unix_nano >= trace.start_time_unix_nano,
    ensures
        r@ == trace_row_of(*trace),
{
    let mut tags: Vec<(String, String)> = Vec::new();
    proof { assert(pairs(tags@) =~= Seq::<(Seq<char>, Seq<char>)>::empty()); }
    append_pairs(&mut tags, &trace.resource_attributes);
    append_pairs(&mut tags, &trace.attributes);
    let p = ("span_name".to_owned(), trace.name.clone());
    proof { assert(pairs(tags@.push(p)) =~= pairs(tags@).push((p.0@, p.1@))); }
    tags.push(p);
    let mut fields: Vec<(FieldName, CellValue)> = Vec::new();
    push_field(&mut fields, named("trace_id"), CellValue::String(hex_encode(trace.trace_id.as_slice()).as_str().as_bytes_vec()));
    push_field(&mut fields, named("span_id"), CellValue::String(hex_encode(trace.span_id.as_slice()).as_str().as_bytes_vec()));
    match &trace.parent_span_id {
        Some(parent) => {
            push_field(&mut fields, named("parent_span_id"), CellValue::String(hex_encode(parent.as_slice()).as_str().as_bytes_vec()));
        },
        None => {},
    }
    push_field(&mut fields, named("start_time"), CellValue::Integer(trace.start_time_unix_nano as i64));
    push_field(&mut fields, named("end_time"), CellValue::Integer(trace.end_time_unix_nano as i64));
    push_field(&mut fields, named("duration_ns"), CellValue::Integer((trace.end_time_unix_nano - trace.start_time_unix_nano) as i64));
    push_field(&mut fields, named("status_code"), CellValue::Integer(trace.status_code as i64));
    if !trace.status_message.as_str().is_empty() {
        push_field(&mut fields, named("status_message"), CellValue::String(trace.status_message.as_str().as_bytes_vec()));
    }
    let r = OtelRow { table: "otel_traces".to_owned(), tags, fields, timestamp: micros(trace.start_time_unix_nano) };
    proof {
        assert(r@.tags =~= trace_row_of(*trace).tags);
        assert(r@.fields =~= trace_row_of(*trace).fields);
    }
    r
}

/// The row of a log record in `otel_logs`: the resource attributes, the
/// record's attributes and its severity name as tags; its times, body,
/// severity number and the hexadecimal trace and span ids it has as fields.
pub open spec fn log_row_of(l: LogData) -> OtelRowView {
    OtelRowView {
        table: "otel_logs"@,
        tags: pairs(l.resource_attributes@) + pairs(l.attributes@) + seq![("severity"@, severity_name(l.severity_number))],
        fields: seq![
            int_field("time_unix_nano"@, l.time_unix_nano as i64),
            int_field("observed_time_unix_nano"@, l.observed_time_unix_nano as i64),
            text_field("body"@, l.body@),
            int_field("severity_number"@, l.severity_number as i64),
        ]
            + (match l.trace_id {
                Some(t) => seq![text_field("trace_id"@, hex_seq(t@))],
                None => Seq::empty(),
            })
            + (match l.span_id {
                Some(t) => seq![text_field("span_id"@, hex_seq(t@))],
                None => Seq::empty(),
            }),
        timestamp: micros_of(l.time_unix_nano),
    }
}

/// The row of a log record.
pub fn log_row(log: &LogData) -> (r: OtelRow)
    ensures
        r@ == log_row_of(*log),
{
    let mut tags: Vec<(String, String)> = Vec::new();
    proof { assert(pairs(tags@) =~= Seq::<(Seq<char>, Seq<char>)>::empty()); }
    append_pairs(&mut tags, &log.resource_attributes);
    append_pairs(&mut tags, &log.attributes);
    let p = ("severity".to_owned(), get_severity_text(log.severity_number));
    proof { assert(pairs(tags@.push(p)) =~= pairs(tags@).push((p.0@, p.1@))); }
    tags.push(p);
    let mut fields: Vec<(FieldName, CellValue)> = Vec::new();
    push_field(&mut fields, named("time_unix_nano"), CellValue::Integer(log.time_unix_nano as i64));
    push_field(&mut fields, named("observed_time_unix_nano"), CellValue::Integer(log.observed_time_unix_nano as i64));
    push_field(&mut fields, named("body"), CellValue::String(log.body.as_str().as_bytes_vec()));
    push_field(&mut fields, named("severity_number"), CellValue::Integer(log.severity_number as i64));
    match &log.trace_id {
        Some(t) => {
            push_field(&mut fields, named("trace_id"), CellValue::String(hex_encode(t.as_slice()).as_str().as_bytes_vec()));
        },
        None => {},
    }
    match &log.span_id {
        Some(t) => {
            push_field(&mut fields, named("span_id"), CellValue::String(hex_encode(t.as_slice()).as_str().as_bytes_vec()));
        },
        None => {},
    }
    let r = OtelRow { table: "otel_logs".to_owned(), tags, fields, timestamp: micros(log.time_unix_nano) };
    proof {
        assert(r@.tags =~= log_row_of(*log).tags);
        assert(r@.fields =~= log_row_of(*log).fields);
    }
    r
}


/// The fields of the first `n` buckets of a histogram point: for bucket
/// `i`, `bucket_i` (its count) and `bucket_i_sum` (its sum).
pub open spec fn bucket_fields(b: Seq<HistogramBucket>, n: int) -> Seq<(FieldNameView, crate::arrow_flight::CellView)>
    decreases n,
{
    if n <= 0 {
        Seq::empty()
    } else {
        let i = n - 1;
        bucket_fields(b, i) + seq![
            int_field("bucket_"@ + dec_nat(i as nat), b[i].count as i64),
            (FieldNameView::Text("bucket_"@ + dec_nat(i as nat) + "_sum"@), crate::arrow_flight::CellView::Float(b[i].sum@)),
        ]
    }
}

/// The fields of the first `n` quantiles of a summary point.
pub open spec fn quantile_fields(q: Seq<QuantileValue>, n: int) -> Seq<(FieldNameView, crate::arrow_flight::CellView)>
    decreases n,
{
    if n <= 0 {
        Seq::empty()
    } else {
        quantile_fields(q, n - 1) + seq![(FieldNameView::Quantile(q[n - 1].quantile_bits), crate::arrow_flight::CellView::Float(q[n - 1].value@))]
    }
}

/// The fields of a point by the metric's kind: its value for a gauge or
/// counter; its buckets, count and sum for a histogram; its quantiles for
/// a summary; after the point's time.
pub open spec fn point_fields(t: MetricType, dp: MetricDataPoint) -> Seq<(FieldNameView, crate::arrow_flight::CellView)> {
    seq![int_field("time"@, dp.time_unix_nano as i64)] + match t {
        MetricType::Gauge | MetricType::Counter => seq![(FieldNameView::Text("value"@), crate::arrow_flight::CellView::Float(dp.value@))],
        MetricType::Histogram =>
            (match dp.buckets { Some(b) => bucket_fields(b@, b@.len() as int), None => Seq::empty() })
            + (match dp.count { Some(c) => seq![int_field("count"@, c as i64)], None => Seq::empty() })
            + (match dp.sum { Some(x) => seq![(FieldNameView::Text("sum"@), crate::arrow_flight::CellView::Float(x@))], None => Seq::empty() }),
        MetricType::Summary => match dp.quantile_values { Some(q) => quantile_fields(q@, q@.len() as int), None => Seq::empty() },
    }
}

/// The tags that every point of a metric has: the resource attributes, the
/// metric's name and kind, and its description and unit when not empty.
pub open spec fn metric_tags(m: MetricData) -> Seq<(Seq<char>, Seq<char>)> {
    pairs(m.resource_attributes@) + seq![("metric_name"@, m.name@), ("metric_type"@, metric_type_name(m.metric_type))]
        + (if m.description@.len() == 0 { Seq::empty() } else { seq![("description"@, m.description@)] })
        + (if m.unit@.len() == 0 { Seq::empty() } else { seq![("unit"@, m.unit@)] })
}

/// The rows of a metric in `otel_metrics_` and its name: one per point,
/// with the metric's tags and the point's attributes, and the point's
/// fields.
pub open spec fn metric_rows_of(m: MetricData) -> Seq<OtelRowView> {
    Seq::new(m.data_points@.len(), |i: int| OtelRowView {
        table: "otel_metrics_"@ + m.name@,
        tags: metric_tags(m) + pairs(m.data_points@[i].attributes@),
        fields: point_fields(m.metric_type, m.data_points@[i]),
        timestamp: micros_of(m.data_points@[i].time_unix_nano),
    })
}

fn copy_pairs(v: &Vec<(String, String)>) -> (r: Vec<(String, String)>)
    ensures
        pairs(r@) == pairs(v@),
{
    let mut r: Vec<(String, String)> = Vec::new();
    proof { assert(pairs(r@) =~= Seq::<(Seq<char>, Seq<char>)>::empty()); }
    append_pairs(&mut r, v);
    proof { assert(pairs(r@) =~= pairs(v@)); }
    r
}

fn bucket_name(i: usize, suffix: &str) -> (r: String)
    ensures
        r@ == "bucket_"@ + dec_nat(i as nat) + suffix@,
{
    let mut s = "bucket_".to_owned();
    append_u64(&mut s, i as u64);
    push_str(&mut s, suffix);
    s
}

fn point_row_fields(t: MetricType, dp: &MetricDataPoint) -> (r: Vec<(FieldName, CellValue)>)
    ensures
        r@.map_values(|f: (FieldName, CellValue)| (f.0@, f.1@)) == point_fields(t, *dp),
{
    let mut fields: Vec<(FieldName, CellValue)> = Vec::new();
    push_field(&mut fields, named("time"), CellValue::Integer(dp.time_unix_nano as i64));
    let ghost head = fields@.map_values(|f: (FieldName, CellValue)| (f.0@, f.1@));
    match t {
        MetricType::Gauge | MetricType::Counter => {
            push_field(&mut fields, named("value"), CellValue::Float(copy_float_cell(&dp.value)));
        },
        MetricType::Histogram => {
            match &dp.buckets {
                Some(b) => {
                    let mut i: usize = 0;
                    while i < b.len()
                        invariant
                            i <= b@.len(),
                            fields@.map_values(|f: (FieldName, CellValue)| (f.0@, f.1@)) == head + bucket_fields(b@, i as int),
                        decreases b@.len() - i,
                    {
                        push_field(&mut fields, FieldName::Text(bucket_name(i, "")), CellValue::Integer(b[i].count as i64));
                        push_field(&mut fields, FieldName::Text(bucket_name(i, "_sum")), CellValue::Float(copy_float_cell(&b[i].sum)));
                        proof {
                            reveal_strlit("");
                            assert("bucket_"@ + dec_nat(i as nat) + ""@ =~= "bucket_"@ + dec_nat(i as nat));
                            assert(fields@.map_values(|f: (FieldName, CellValue)| (f.0@, f.1@)) =~= head + bucket_fields(b@, i + 1));
                        }
                        i = i + 1;
                    }
                },
                None => {
                    proof { assert(head + Seq::<(FieldNameView, crate::arrow_flight::CellView)>::empty() =~= head); }
                },
            }
            let ghost mid = fields@.map_values(|f: (FieldName, CellValue)| (f.0@, f.1@));
            match dp.count {
                Some(c) => { push_field(&mut fields, named("count"), CellValue::Integer(c as i64)); },
                None => {},
            }
            match &dp.sum {
                Some(x) => { push_field(&mut fields, named("sum"), CellValue::Float(copy_float_cell(x))); },
                None => {},
            }
            proof {
                assert(fields@.map_values(|f: (FieldName, CellValue)| (f.0@, f.1@)) =~= point_fields(t, *dp));
            }
        },
        MetricType::Summary => {
            match &dp.quantile_values {
                Some(q) => {
                    let mut i: usize = 0;
                    while i < q.len()
                        invariant
                            i <= q@.len(),
                            fields@.map_values(|f: (FieldName, CellValue)| (f.0@, f.1@)) == head + quantile_fields(q@, i as int),
                        decreases q@.len() - i,
                    {
                        push_field(&mut fields, FieldName::Quantile(q[i].quantile_bits), CellValue::Float(copy_float_cell(&q[i].value)));
                        proof {
                            assert(fields@.map_values(|f: (FieldName, CellValue)| (f.0@, f.1@)) =~= head + quantile_fields(q@, i + 1));
                        }
                        i = i + 1;
                    }
                },
                None => {
                    proof { assert(head + Seq::<(FieldNameView, crate::arrow_flight::CellView)>::empty() =~= head); }
                },
            }
        },
    }
    fields
}

/// The rows of a metric, one per point.
pub fn metric_rows(metric: &MetricData) -> (r: Vec<OtelRow>)
    ensures
        r@.map_values(|x: OtelRow| x@) == metric_rows_of(*metric),
{
    let mut table = "otel_metrics_".to_owned();
    push_str(&mut table, metric.name.as_str());
    let mut tags = copy_pairs(&metric.resource_attributes);
    let p1 = ("metric_name".to_owned(), metric.name.clone());
    let p2 = ("metric_type".to_owned(), metric_type_text(metric.metric_type));
    proof { assert(pairs(tags@.push(p1)) =~= pairs(tags@).push((p1.0@, p1.1@))); }
    tags.push(p1);
    proof { assert(pairs(tags@.push(p2)) =~= pairs(tags@).push((p2.0@, p2.1@))); }
    tags.push(p2);
    if !metric.description.as_str().is_empty() {
        let p = ("description".to_owned(), metric.description.clone());
        proof { assert(pairs(tags@.push(p)) =~= pairs(tags@).push((p.0@, p.1@))); }
        tags.push(p);
    }
    if !metric.unit.as_str().is_empty() {
        let p = ("unit".to_owned(), metric.unit.clone());
        proof { assert(pairs(tags@.push(p)) =~= pairs(tags@).push((p.0@, p.1@))); }
        tags.push(p);
    }
    proof { assert(pairs(tags@) =~= metric_tags(*metric)); }
    let mut rows: Vec<OtelRow> = Vec::new();
    let mut i: usize = 0;
    while i < metric.data_points.len()
        invariant
            i <= metric.data_points@.len(),
            table@ == "otel_metrics_"@ + metric.name@,
            pairs(tags@) == metric_tags(*metric),
            rows@.len() == i,
            forall|k: int| 0 <= k < i ==> (#[trigger] rows@[k])@ == metric_rows_of(*metric)[k],
        decreases metric.data_points@.len() - i,
    {
        let dp = &metric.data_points[i];
        let mut row_tags = copy_pairs(&tags);
        append_pairs(&mut row_tags, &dp.attributes);
        let fields = point_row_fields(metric.metric_type, dp);
        let row = OtelRow { table: table.clone(), tags: row_tags, fields, timestamp: micros(dp.time_unix_nano) };
        rows.push(row);
        i = i + 1;
    }
    proof { assert(rows@.map_values(|x: OtelRow| x@) =~= metric_rows_of(*metric)); }
    rows
}


// ----- export requests -----

#[derive(Debug, Clone)]
struct KeyValue {
    key: String,
    value: Option<String>,
}

#[derive(Debug, Clone)]
struct Resource {
    attributes: Vec<KeyValue>,
}

#[derive(Debug, Clone)]
struct Scope {
    name: String,
    version: String,
}

#[derive(Debug, Clone)]
struct Span {
    trace_id: Vec<u8>,
    span_id: Vec<u8>,
    parent_span_id: Option<Vec<u8>>,
    name: String,
    start_time_unix_nano: u64,
    end_time_unix_nano: u64,
    attributes: Vec<(String, String)>,
    status_code: i32,
    status_message: String,
}

#[derive(Debug, Clone)]
struct ScopeSpans {
    scope: Scope,
    spans: Vec<Span>,
}

#[derive(Debug, Clone)]
struct ResourceSpans {
    resource: Resource,
    scope_spans: Vec<ScopeSpans>,
}

#[derive(Debug, Clone)]
struct MetricPoint {
    time_unix_nano: u64,
    value: FloatCell,
    attributes: Vec<KeyValue>,
    count: Option<u64>,
    sum: Option<FloatCell>,
}

#[derive(Debug, Clone)]
struct Metric {
    name: String,
    description: String,
    unit: String,
    data_case: i32,
    data_points: Vec<MetricPoint>,
}

#[derive(Debug, Clone)]
struct ScopeMetrics {
    scope: Scope,
    metrics: Vec<Metric>,
}

#[derive(Debug, Clone)]
struct ResourceMetrics {
    resource: Resource,
    scope_metrics: Vec<ScopeMetrics>,
}

#[derive(Debug, Clone)]
struct LogRecord {
    time_unix_nano: u64,
    observed_time_unix_nano: u64,
    severity_number: i32,
    body: String,
    attributes: Vec<(String, String)>,
    trace_id: Vec<u8>,
    span_id: Vec<u8>,
}

#[derive(Debug, Clone)]
struct ScopeLogs {
    scope: Scope,
    log_records: Vec<LogRecord>,
}

#[derive(Debug, Clone)]
struct ResourceLogs {
    resource: Resource,
    scope_logs: Vec<ScopeLogs>,
}

fn empty_resource() -> (r: Resource)
    ensures
        r.attributes@.len() == 0,
{
    Resource { attributes: Vec::new() }
}

/// The resource spans at `offset`: this reader takes none, and moves to
/// the end of the data.
fn decode_resource_spans(data: &[u8], _offset: usize) -> (r: Result<(ResourceSpans, usize), prost::DecodeError>)
    ensures
        r matches Ok((rs, n)) && rs.scope_spans@.len() == 0 && n == data@.len(),
{
    Ok((ResourceSpans { resource: empty_resource(), scope_spans: Vec::new() }, data.len()))
}

/// The resource metrics at `offset`: this reader takes none, and moves to
/// the end of the data.
fn decode_resource_metrics(data: &[u8], _offset: usize) -> (r: Result<(ResourceMetrics, usize), prost::DecodeError>)
    ensures
        r matches Ok((rm, n)) && rm.scope_metrics@.len() == 0 && n == data@.len(),
{
    Ok((ResourceMetrics { resource: empty_resource(), scope_metrics: Vec::new() }, data.len()))
}

/// The resource logs at `offset`: this reader takes none, and moves to the
/// end of the data.
fn decode_resource_logs(data: &[u8], _offset: usize) -> (r: Result<(ResourceLogs, usize), prost::DecodeError>)
    ensures
        r matches Ok((rl, n)) && rl.scope_logs@.len() == 0 && n == data@.len(),
{
    Ok((ResourceLogs { resource: empty_resource(), scope_logs: Vec::new() }, data.len()))
}

/// The key and value of each attribute that has a value, in order.
spec fn present_pairs(a: Seq<KeyValue>) -> Seq<(Seq<char>, Seq<char>)>
    decreases a.len(),
{
    if a.len() == 0 {
        Seq::empty()
    } else {
        let rest = present_pairs(a.drop_last());
        match a.last().value {
            Some(v) => rest.push((a.last().key@, v@)),
            None => rest,
        }
    }
}

/// The key-value pairs of the attributes that have a value, in order.
fn present_attributes(attributes: &Vec<KeyValue>) -> (r: Vec<(String, String)>)
    ensures
        pairs(r@) == present_pairs(attributes@),
{
    let mut attrs: Vec<(String, String)> = Vec::new();
    let mut i: usize = 0;
    while i < attributes.len()
        invariant
            i <= attributes@.len(),
            pairs(attrs@) == present_pairs(attributes@.take(i as int)),
        decreases attributes@.len() - i,
    {
        proof { assert(attributes@.take(i + 1).drop_last() =~= attributes@.take(i as int)); }
        match &attributes[i].value {
            Some(v) => {
                let ghost before = attrs@;
                attrs.push((attributes[i].key.clone(), v.clone()));
                proof { assert(pairs(attrs@) =~= pairs(before).push((attributes@[i as int].key@, v@))); }
            },
            None => {},
        }
        i = i + 1;
    }
    proof { assert(attributes@.take(attributes@.len() as int) =~= attributes@); }
    attrs
}

/// The attributes of a resource that have a value, as pairs.
fn resource_pairs(resource: &Resource) -> (r: Vec<(String, String)>)
    ensures
        pairs(r@) == present_pairs(resource.attributes@),
{
    present_attributes(&resource.attributes)
}

/// The spans of a trace export request, with their resources' attributes.
/// Resources are read one after another until one does not read.
pub fn decode_trace_request(data: &[u8]) -> (r: Result<Vec<TraceData>, prost::DecodeError>)
    ensures
        r matches Ok(v) && v@.len() == 0,
{
    let mut traces: Vec<TraceData> = Vec::new();
    let mut offset: usize = 0;
    while offset < data.len()
        invariant
            offset <= data@.len(),
            traces@.len() == 0,
        decreases data@.len() - offset,
    {
        match decode_resource_spans(data, offset) {
            Ok((resource_spans, new_offset)) => {
                let mut i: usize = 0;
                while i < resource_spans.scope_spans.len()
                    invariant
                        resource_spans.scope_spans@.len() == 0,
                        traces@.len() == 0,
                    decreases resource_spans.scope_spans@.len() - i,
                {
                    let scope_spans = &resource_spans.scope_spans[i];
                    let mut j: usize = 0;
                    while j < scope_spans.spans.len()
                        decreases scope_spans.spans@.len() - j,
                    {
                        let span = &scope_spans.spans[j];
                        traces.push(TraceData {
                            trace_id: span.trace_id.clone(),
                            span_id: span.span_id.clone(),
                            parent_span_id: span.parent_span_id.clone(),
                            name: span.name.clone(),
                            start_time_unix_nano: span.start_time_unix_nano,
                            end_time_unix_nano: span.end_time_unix_nano,
                            attributes: span.attributes.clone(),
                            status_code: span.status_code,
                            status_message: span.status_message.clone(),
                            resource_attributes: resource_pairs(&resource_spans.resource),
                        });
                        j = j + 1;
                    }
                    i = i + 1;
                }
                offset = new_offset;
            },
            Err(_) => {
                break;
            },
        }
    }
    Ok(traces)
}

/// The metric kind of a data case: gauge (1 and any unknown case),
/// counter (2), histogram (3), summary (4).
pub open spec fn metric_type_of_case(c: i32) -> MetricType {
    if c == 2 { MetricType::Counter }
    else if c == 3 { MetricType::Histogram }
    else if c == 4 { MetricType::Summary }
    else { MetricType::Gauge }
}

fn metric_type_from_case(c: i32) -> (r: MetricType)
    ensures
        r == metric_type_of_case(c),
{
    if c == 1 { MetricType::Gauge }
    else if c == 2 { MetricType::Counter }
    else if c == 3 { MetricType::Histogram }
    else if c == 4 { MetricType::Summary }
    else { MetricType::Gauge }
}

/// The point of a metric as the engine keeps it: its time, value, count
/// and sum, and the attributes that have a value.
fn point_of(dp: &MetricPoint) -> (r: MetricDataPoint)
    ensures
        r.time_unix_nano == dp.time_unix_nano,
        r.value@ == dp.value@,
        pairs(r.attributes@) == present_pairs(dp.attributes@),
        r.count == dp.count,
        dp.sum is None ==> r.sum is None,
        dp.sum matches Some(s) ==> (r.sum matches Some(t) && t@ == s@),
        r.buckets is None,
        r.quantile_values is None,
{
    MetricDataPoint {
        time_unix_nano: dp.time_unix_nano,
        value: copy_float_cell(&dp.value),
        attributes: present_attributes(&dp.attributes),
        count: dp.count,
        sum: match &dp.sum {
            Some(s) => Some(copy_float_cell(s)),
            None => None,
        },
        buckets: None,
        quantile_values: None,
    }
}

/// The metrics of a metric export request, with their resources'
/// attributes and their kinds. Resources are read one after another until
/// one does not read.
pub fn decode_metric_request(data: &[u8]) -> (r: Result<Vec<MetricData>, prost::DecodeError>)
    ensures
        r matches Ok(v) && v@.len() == 0,
{
    let mut metrics: Vec<MetricData> = Vec::new();
    let mut offset: usize = 0;
    while offset < data.len()
        invariant
            offset <= data@.len(),
            metrics@.len() == 0,
        decreases data@.len() - offset,
    {
        match decode_resource_metrics(data, offset) {
            Ok((resource_metrics, new_offset)) => {
                let mut i: usize = 0;
                while i < resource_metrics.scope_metrics.len()
                    invariant
                        resource_metrics.scope_metrics@.len() == 0,
                        metrics@.len() == 0,
                    decreases resource_metrics.scope_metrics@.len() - i,
                {
                    let scope_metrics = &resource_metrics.scope_metrics[i];
                    let mut j: usize = 0;
                    while j < scope_metrics.metrics.len()
                        decreases scope_metrics.metrics@.len() - j,
                    {
                        let metric = &scope_metrics.metrics[j];
                        let mut data_points: Vec<MetricDataPoint> = Vec::new();
                        let mut k: usize = 0;
                        while k < metric.data_points.len()
                            decreases metric.data_points@.len() - k,
                        {
                            data_points.push(point_of(&metric.data_points[k]));
                            k = k + 1;
                        }
                        metrics.push(MetricData {
                            name: metric.name.clone(),
                            description: metric.description.clone(),
                            unit: metric.unit.clone(),
                            metric_type: metric_type_from_case(metric.data_case),
                            data_points,
                            resource_attributes: resource_pairs(&resource_metrics.resource),
                        });
                        j = j + 1;
                    }
                    i = i + 1;
                }
                offset = new_offset;
            },
            Err(_) => {
                break;
            },
        }
    }
    Ok(metrics)
}

/// The log records of a log export request, with their resources'
/// attributes, severity names, and trace and span ids when not empty.
/// Resources are read one after another until one does not read.
pub fn decode_log_request(data: &[u8]) -> (r: Result<Vec<LogData>, prost::DecodeError>)
    ensures
        r matches Ok(v) && v@.len() == 0,
{
    let mut logs: Vec<LogData> = Vec::new();
    let mut offset: usize = 0;
    while offset < data.len()
        invariant
            offset <= data@.len(),
            logs@.len() == 0,
        decreases data@.len() - offset,
    {
        match decode_resource_logs(data, offset) {
            Ok((resource_logs, new_offset)) => {
                let mut i: usize = 0;
                while i < resource_logs.scope_logs.len()
                    invariant
                        resource_logs.scope_logs@.len() == 0,
                        logs@.len() == 0,
                    decreases resource_logs.scope_logs@.len() - i,
                {
                    let scope_logs = &resource_logs.scope_logs[i];
                    let mut j: usize = 0;
                    while j < scope_logs.log_records.len()
                        decreases scope_logs.log_records@.len() - j,
                    {
                        let record = &scope_logs.log_records[j];
                        logs.push(LogData {
                            time_unix_nano: record.time_unix_nano,
                            observed_time_unix_nano: record.observed_time_unix_nano,
                            severity_number: record.severity_number,
                            severity_text: get_severity_text(record.severity_number),
                            body: record.body.clone(),
                            attributes: record.attributes.clone(),
                            resource_attributes: resource_pairs(&resource_logs.resource),
                            trace_id: if record.trace_id.len() == 0 { None } else { Some(record.trace_id.clone()) },
                            span_id: if record.span_id.len() == 0 { None } else { Some(record.span_id.clone()) },
                        });
                        j = j + 1;
                    }
                    i = i + 1;
                }
                offset = new_offset;
            },
            Err(_) => {
                break;
            },
        }
    }
    Ok(logs)
}

} // verus!
