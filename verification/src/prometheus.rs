//! Prometheus remote write and read: the protocol-buffer messages read and
//! written by hand, label handling, and the PromQL metric selector.
//!
//! A sample value is kept as the bits of its `f64` (little-endian on the
//! wire), which the writer of a row reads as a float.

use vstd::prelude::*;
use crate::text::{lossy_string, utf8_lossy, str_eq, starts_with, push_str, push_char, append_u64};
use vstd::string::*;
use crate::chars::{trim, trim_seq};
use crate::line_protocol::{char_pos, find_char, split_char, split_on, strings};
use crate::otel::pairs;

verus! {

#[verifier::external_type_specification]
#[verifier::external_body]
pub struct ExDecodeError(prost::DecodeError);

/// `prost::DecodeError::new("invalid varint")`: the error of a varint that
/// runs past the data or past 64 bits.
#[verifier::external_body]
fn invalid_varint() -> prost::DecodeError {
    prost::DecodeError::new("invalid varint")
}

/// Which remote APIs are served.
#[derive(Debug, Clone)]
pub struct PrometheusConfig {
    pub remote_write_enabled: bool,
    pub remote_read_enabled: bool,
    pub promql_enabled: bool,
}

impl Default for PrometheusConfig {
    fn default() -> (r: Self)
        ensures
            r.remote_write_enabled && r.remote_read_enabled && r.promql_enabled,
    {
        PrometheusConfig { remote_write_enabled: true, remote_read_enabled: true, promql_enabled: true }
    }
}

/// A label of a series.
#[derive(Debug, Clone)]
pub struct Label {
    pub name: String,
    pub value: String,
}

/// A sample: the bits of its `f64` value and its timestamp in milliseconds.
#[derive(Debug, Clone, Copy)]
pub struct Sample {
    pub value_bits: u64,
    pub timestamp: i64,
}

/// A series: its labels and samples.
#[derive(Debug, Clone)]
pub struct TimeSeries {
    pub labels: Vec<Label>,
    pub samples: Vec<Sample>,
}

/// A remote write request.
#[derive(Debug, Clone)]
pub struct RemoteWriteRequest {
    pub timeseries: Vec<TimeSeries>,
}

/// A selector of label values.
#[derive(Debug, Clone)]
pub enum LabelSelector {
    Equal(String),
    NotEqual(String),
    RegexEqual(String),
    RegexNotEqual(String),
}

/// A metric to read.
#[derive(Debug, Clone)]
pub struct Matcher {
    pub name: String,
    pub label_selectors: Vec<LabelSelector>,
}

/// A remote read request: a time range in milliseconds and the metrics.
#[derive(Debug, Clone)]
pub struct PrometheusQuery {
    pub start_timestamp_ms: i64,
    pub end_timestamp_ms: i64,
    pub matchers: Vec<Matcher>,
}

/// The series that answer one metric.
#[derive(Debug, Clone)]
pub struct QueryResult {
    pub timeseries: Vec<TimeSeries>,
}

/// A remote read response.
#[derive(Debug, Clone)]
pub struct PrometheusReadResponse {
    pub results: Vec<QueryResult>,
}

/// The abstract value of a label.
pub struct LabelView {
    pub name: Seq<char>,
    pub value: Seq<char>,
}

impl View for Label {
    type V = LabelView;

    open spec fn view(&self) -> LabelView {
        LabelView { name: self.name@, value: self.value@ }
    }
}

/// The abstract value of a series.
pub struct TimeSeriesView {
    pub labels: Seq<LabelView>,
    pub samples: Seq<Sample>,
}

impl View for TimeSeries {
    type V = TimeSeriesView;

    open spec fn view(&self) -> TimeSeriesView {
        TimeSeriesView { labels: self.labels@.map_values(|l: Label| l@), samples: self.samples@ }
    }
}

/// The abstract values of some series.
pub open spec fn series_view(s: Seq<TimeSeries>) -> Seq<TimeSeriesView> {
    s.map_values(|t: TimeSeries| t@)
}

// ----- labels -----

/// The value of the first `__name__` label, or `unknown`.
pub open spec fn measurement_name(labels: Seq<LabelView>) -> Seq<char>
    decreases labels.len(),
{
    if labels.len() == 0 {
        "unknown"@
    } else if labels[0].name == "__name__"@ {
        labels[0].value
    } else {
        measurement_name(labels.drop_first())
    }
}

/// The measurement of a series is the value of its first label named
/// `__name__`, and `unknown` when no label has that name; a label with
/// another name never supplies it.
pub proof fn law_measurement_from_name_label(labels: Seq<LabelView>)
    ensures
        (forall|i: int| 0 <= i < labels.len() ==> #[trigger] labels[i].name != "__name__"@)
            ==> measurement_name(labels) == "unknown"@,
        (exists|i: int| 0 <= i < labels.len() && #[trigger] labels[i].name == "__name__"@) ==> exists|i: int|
            0 <= i < labels.len() && #[trigger] labels[i].name == "__name__"@
            && measurement_name(labels) == labels[i].value
            && forall|j: int| 0 <= j < i ==> labels[j].name != "__name__"@,
    decreases labels.len(),
{
    if labels.len() > 0 {
        let rest = labels.drop_first();
        law_measurement_from_name_label(rest);
        if labels[0].name == "__name__"@ {
            assert(labels[0].name == "__name__"@);
        } else {
            if forall|i: int| 0 <= i < labels.len() ==> #[trigger] labels[i].name != "__name__"@ {
                assert forall|i: int| 0 <= i < rest.len() implies #[trigger] rest[i].name != "__name__"@ by {
                    assert(rest[i] == labels[i + 1]);
                }
            }
            if exists|i: int| 0 <= i < labels.len() && #[trigger] labels[i].name == "__name__"@ {
                let i = choose|i: int| 0 <= i < labels.len() && #[trigger] labels[i].name == "__name__"@;
                assert(rest[i - 1] == labels[i]);
                assert(rest[i - 1].name == "__name__"@);
                let k = choose|k: int| 0 <= k < rest.len() && #[trigger] rest[k].name == "__name__"@
                    && measurement_name(rest) == rest[k].value
                    && forall|j: int| 0 <= j < k ==> rest[j].name != "__name__"@;
                assert(labels[k + 1] == rest[k]);
                assert forall|j: int| 0 <= j < k + 1 implies labels[j].name != "__name__"@ by {
                    if j > 0 { assert(labels[j] == rest[j - 1]); }
                }
                assert(labels[k + 1].name == "__name__"@);
            }
        }
    }
}

/// The name of the measurement that a series is written to: its
/// `__name__` label, or `unknown`.
pub fn extract_measurement_name(labels: &[Label]) -> (r: String)
    ensures
        r@ == measurement_name(labels@.map_values(|l: Label| l@)),
{
    let ghost v = labels@.map_values(|l: Label| l@);
    proof { assert(v.subrange(0, v.len() as int) =~= v); }
    let mut i: usize = 0;
    while i < labels.len()
        invariant
            i <= labels@.len(),
            v == labels@.map_values(|l: Label| l@),
            measurement_name(v) == measurement_name(v.subrange(i as int, v.len() as int)),
        decreases labels@.len() - i,
    {
        proof { assert(v.subrange(i as int, v.len() as int).drop_first() =~= v.subrange(i + 1, v.len() as int)); }
        if str_eq(labels[i].name.as_str(), "__name__") {
            return labels[i].value.clone();
        }
        i = i + 1;
    }
    "unknown".to_owned()
}

/// The tags of a series: its labels whose names do not start with `__`,
/// in order (read as a map, a later one of a name wins).
pub open spec fn tags_of(labels: Seq<LabelView>) -> Seq<(Seq<char>, Seq<char>)> {
    labels.filter(|l: LabelView| !"__"@.is_prefix_of(l.name)).map_values(|l: LabelView| (l.name, l.value))
}

/// The tags of a series.
pub fn extract_tags(labels: &[Label]) -> (r: Vec<(String, String)>)
    ensures
        r@.map_values(|t: (String, String)| (t.0@, t.1@)) == tags_of(labels@.map_values(|l: Label| l@)),
{
    let ghost v = labels@.map_values(|l: Label| l@);
    let mut r: Vec<(String, String)> = Vec::new();
    let mut i: usize = 0;
    proof {
        assert(v.subrange(0, 0).filter(|l: LabelView| !"__"@.is_prefix_of(l.name)) =~= Seq::empty()) by {
            reveal(Seq::filter);
        }
    }
    while i < labels.len()
        invariant
            i <= labels@.len(),
            v == labels@.map_values(|l: Label| l@),
            r@.map_values(|t: (String, String)| (t.0@, t.1@))
                == tags_of(v.subrange(0, i as int)),
        decreases labels@.len() - i,
    {
        let ghost before = r@.map_values(|t: (String, String)| (t.0@, t.1@));
        proof {
            assert(v.subrange(0, i + 1).drop_last() =~= v.subrange(0, i as int));
            reveal(Seq::filter);
        }
        let keep = !starts_with(labels[i].name.as_str(), "__");
        if keep {
            let pair = (labels[i].name.clone(), labels[i].value.clone());
            proof {
                assert(r@.push(pair).map_values(|t: (String, String)| (t.0@, t.1@)) =~= before.push((pair.0@, pair.1@)));
            }
            r.push(pair);
        }
        i = i + 1;
    }
    proof { assert(v.subrange(0, v.len() as int) =~= v); }
    r
}

/// The labels of a row read back: `__name__` set to `metric`, then the
/// tags in order.
pub open spec fn labels_of(tags: Seq<(Seq<char>, Seq<char>)>) -> Seq<LabelView> {
    seq![LabelView { name: "__name__"@, value: "metric"@ }] + tags.map_values(|t: (Seq<char>, Seq<char>)| LabelView { name: t.0, value: t.1 })
}

/// The labels of a row read back.
pub fn build_labels(tags: &[(String, String)]) -> (r: Vec<Label>)
    ensures
        r@.map_values(|l: Label| l@) == labels_of(tags@.map_values(|t: (String, String)| (t.0@, t.1@))),
{
    let ghost tv = tags@.map_values(|t: (String, String)| (t.0@, t.1@));
    let mut labels: Vec<Label> = Vec::new();
    labels.push(Label { name: "__name__".to_owned(), value: "metric".to_owned() });
    let mut i: usize = 0;
    while i < tags.len()
        invariant
            i <= tags@.len(),
            tv == tags@.map_values(|t: (String, String)| (t.0@, t.1@)),
            labels@.map_values(|l: Label| l@) == labels_of(tv.subrange(0, i as int)),
        decreases tags@.len() - i,
    {
        let ghost before = labels@.map_values(|l: Label| l@);
        let l = Label { name: tags[i].0.clone(), value: tags[i].1.clone() };
        proof {
            assert(labels@.push(l).map_values(|l: Label| l@) =~= before.push(l@));
            assert(labels_of(tv.subrange(0, i + 1)) =~= labels_of(tv.subrange(0, i as int)).push(l@));
        }
        labels.push(l);
        i = i + 1;
    }
    proof { assert(tv.subrange(0, tv.len() as int) =~= tv); }
    labels
}


// ----- the wire format -----

/// A varint from `off`: seven bits per byte, least significant first,
/// while the high bit is set; no more than ten bytes; `None` when it runs
/// past the data or past 64 bits.
pub open spec fn varint_from(data: Seq<u8>, off: int, shift: u64, acc: u64) -> Option<(u64, int)>
    decreases 64 - shift,
{
    if off < 0 || off >= data.len() || shift >= 64 {
        None
    } else {
        let b = data[off];
        let acc2 = acc | (((b & 0x7f) as u64) << shift);
        if b & 0x80 == 0 {
            Some((acc2, off + 1))
        } else if shift + 7 >= 64 {
            None
        } else {
            varint_from(data, off + 1, (shift + 7) as u64, acc2)
        }
    }
}

/// The varint at `off`, and the position after it.
pub open spec fn varint_at(data: Seq<u8>, off: int) -> Option<(u64, int)> {
    varint_from(data, off, 0, 0)
}

/// Where a varint ends: after its start, within the data.
pub proof fn lemma_varint_from(data: Seq<u8>, off: int, shift: u64, acc: u64)
    ensures
        varint_from(data, off, shift, acc) matches Some((_, e)) ==> off < e <= data.len(),
    decreases 64 - shift,
{
    if 0 <= off < data.len() && shift < 64 {
        let b = data[off];
        let acc2 = acc | (((b & 0x7f) as u64) << shift);
        if b & 0x80 != 0 && shift + 7 < 64 {
            lemma_varint_from(data, off + 1, (shift + 7) as u64, acc2);
        }
    }
}

/// Reads a varint at `offset`: its value and the position after it.
pub fn decode_varint(data: &[u8], offset: usize) -> (r: Result<(u64, usize), prost::DecodeError>)
    ensures
        match varint_at(data@, offset as int) {
            Some((v, e)) => r matches Ok((v2, e2)) && v2 == v && e2 == e,
            None => r is Err,
        },
{
    proof { lemma_varint_from(data@, offset as int, 0, 0); }
    let mut result: u64 = 0;
    let mut shift: u64 = 0;
    let mut new_offset = offset;
    while new_offset < data.len()
        invariant
            shift < 64,
            new_offset >= offset,
            varint_at(data@, offset as int) == varint_from(data@, new_offset as int, shift, result),
        decreases 64 - shift,
    {
        let byte = data[new_offset];
        new_offset = new_offset + 1;
        result = result | (((byte & 0x7f) as u64) << shift);
        if byte & 0x80 == 0 {
            return Ok((result, new_offset));
        }
        if shift + 7 >= 64 {
            return Err(invalid_varint());
        }
        shift = shift + 7;
    }
    Err(invalid_varint())
}

/// The field number of a key byte.
pub open spec fn field_of(b: u8) -> u8 {
    b >> 3
}

/// The wire type of a key byte.
pub open spec fn wire_of(b: u8) -> u8 {
    b & 0x7
}

/// Whether `len` bytes from `off` lie within the data.
pub open spec fn fits(data: Seq<u8>, off: int, len: u64) -> bool {
    off + (len as usize) <= data.len()
}

/// The bytes from `off`, `len` of them.
pub open spec fn bytes_at(data: Seq<u8>, off: int, len: u64) -> Seq<u8> {
    data.subrange(off, off + (len as usize))
}

/// Eight bytes read as a little-endian `u64`.
pub open spec fn le_u64(b: Seq<u8>) -> u64 {
    (b[0] as u64) | ((b[1] as u64) << 8) | ((b[2] as u64) << 16) | ((b[3] as u64) << 24)
        | ((b[4] as u64) << 32) | ((b[5] as u64) << 40) | ((b[6] as u64) << 48) | ((b[7] as u64) << 56)
}

pub(crate) fn read_u64_le(data: &[u8], off: usize) -> (r: u64)
    requires
        off + 8 <= data@.len(),
    ensures
        r == le_u64(data@.subrange(off as int, off + 8)),
{
    (data[off] as u64) | ((data[off + 1] as u64) << 8) | ((data[off + 2] as u64) << 16) | ((data[off + 3] as u64) << 24)
        | ((data[off + 4] as u64) << 32) | ((data[off + 5] as u64) << 40) | ((data[off + 6] as u64) << 48) | ((data[off + 7] as u64) << 56)
}

fn fits_exec(data: &[u8], off: usize, len: u64) -> (r: bool)
    requires
        off <= data@.len(),
    ensures
        r == fits(data@, off as int, len),
{
    (len as usize) <= data.len() - off
}

/// The name and value of a label message: field 1 (bytes) is the name and
/// field 2 the value, each read as UTF-8 with invalid sequences replaced;
/// bytes that run past the message are skipped; another field ends it.
pub open spec fn label_fields(data: Seq<u8>, off: int, name: Seq<char>, value: Seq<char>) -> Option<(Seq<char>, Seq<char>)>
    decreases data.len() - off,
{
    if off < 0 || off >= data.len() {
        Some((name, value))
    } else {
        let b = data[off];
        let o1 = off + 1;
        if field_of(b) == 1 || field_of(b) == 2 {
            if wire_of(b) == 2 {
                match varint_at(data, o1) {
                    None => None,
                    Some((l, o2)) => {
                        proof { lemma_varint_from(data, o1, 0, 0); }
                        if fits(data, o2, l) {
                            let t = utf8_lossy(bytes_at(data, o2, l));
                            if field_of(b) == 1 {
                                label_fields(data, o2 + (l as usize), t, value)
                            } else {
                                label_fields(data, o2 + (l as usize), name, t)
                            }
                        } else {
                            label_fields(data, o2, name, value)
                        }
                    },
                }
            } else {
                label_fields(data, o1, name, value)
            }
        } else {
            Some((name, value))
        }
    }
}

/// Reads a label message.
pub fn decode_label(data: &[u8]) -> (r: Result<Label, prost::DecodeError>)
    ensures
        match label_fields(data@, 0, Seq::empty(), Seq::empty()) {
            Some((n, v)) => r matches Ok(l) && l.name@ == n && l.value@ == v,
            None => r is Err,
        },
{
    let mut name = String::new();
    let mut value = String::new();
    let mut offset: usize = 0;
    while offset < data.len()
        invariant_except_break
            label_fields(data@, 0, Seq::empty(), Seq::empty()) == label_fields(data@, offset as int, name@, value@),
        invariant
            offset <= data@.len(),
        ensures
            label_fields(data@, 0, Seq::empty(), Seq::empty()) == Some((name@, value@)),
        decreases data@.len() - offset,
    {
        let b = data[offset];
        let field = b >> 3;
        let wire = b & 0x7;
        offset = offset + 1;
        if field == 1 || field == 2 {
            if wire == 2 {
                proof { lemma_varint_from(data@, offset as int, 0, 0); }
                let (len, new_offset) = match decode_varint(data, offset) {
                    Ok(x) => x,
                    Err(e) => return Err(e),
                };
                offset = new_offset;
                if fits_exec(data, offset, len) {
                    let end = offset + len as usize;
                    let t = lossy_string(&data[offset..end]);
                    if field == 1 {
                        name = t;
                    } else {
                        value = t;
                    }
                    offset = end;
                }
            }
        } else {
            break;
        }
    }
    Ok(Label { name, value })
}

/// The value bits and timestamp of a sample message: field 1 (eight bytes)
/// is the value and field 2 (eight bytes) the timestamp; bytes that run
/// past the message are skipped; another field ends it.
pub open spec fn sample_fields(data: Seq<u8>, off: int, value_bits: u64, timestamp: i64) -> Sample
    decreases data.len() - off,
{
    if off < 0 || off >= data.len() {
        Sample { value_bits, timestamp }
    } else {
        let b = data[off];
        let o1 = off + 1;
        if field_of(b) == 1 || field_of(b) == 2 {
            if wire_of(b) == 1 && o1 + 8 <= data.len() {
                let x = le_u64(data.subrange(o1, o1 + 8));
                if field_of(b) == 1 {
                    sample_fields(data, o1 + 8, x, timestamp)
                } else {
                    sample_fields(data, o1 + 8, value_bits, x as i64)
                }
            } else {
                sample_fields(data, o1, value_bits, timestamp)
            }
        } else {
            Sample { value_bits, timestamp }
        }
    }
}

/// Reads a sample message.
pub fn decode_sample(data: &[u8]) -> (r: Result<Sample, prost::DecodeError>)
    ensures
        r matches Ok(smp) && smp == sample_fields(data@, 0, 0, 0),
{
    let mut value_bits: u64 = 0;
    let mut timestamp: i64 = 0;
    let mut offset: usize = 0;
    while offset < data.len()
        invariant_except_break
            sample_fields(data@, 0, 0, 0) == sample_fields(data@, offset as int, value_bits, timestamp),
        invariant
            offset <= data@.len(),
        ensures
            sample_fields(data@, 0, 0, 0) == (Sample { value_bits, timestamp }),
        decreases data@.len() - offset,
    {
        let b = data[offset];
        let field = b >> 3;
        let wire = b & 0x7;
        offset = offset + 1;
        if field == 1 || field == 2 {
            if wire == 1 && data.len() - offset >= 8 {
                let x = read_u64_le(data, offset);
                if field == 1 {
                    value_bits = x;
                } else {
                    timestamp = x as i64;
                }
                offset = offset + 8;
            }
        } else {
            break;
        }
    }
    Ok(Sample { value_bits, timestamp })
}

/// The labels and samples of a series message: field 1 holds a label and
/// field 2 a sample, each as a length-delimited message (one that does not
/// read is dropped); a message that runs past the data or another field
/// ends it.
pub open spec fn series_fields(data: Seq<u8>, off: int, labels: Seq<LabelView>, samples: Seq<Sample>) -> Option<TimeSeriesView>
    decreases data.len() - off,
{
    if off < 0 || off >= data.len() {
        Some(TimeSeriesView { labels, samples })
    } else {
        let b = data[off];
        let o1 = off + 1;
        if field_of(b) == 1 || field_of(b) == 2 {
            if wire_of(b) == 2 {
                match varint_at(data, o1) {
                    None => None,
                    Some((l, o2)) => {
                        proof { lemma_varint_from(data, o1, 0, 0); }
                        if !fits(data, o2, l) {
                            Some(TimeSeriesView { labels, samples })
                        } else {
                            let sub = bytes_at(data, o2, l);
                            if field_of(b) == 1 {
                                let labels2 = match label_fields(sub, 0, Seq::empty(), Seq::empty()) {
                                    Some((n, v)) => labels.push(LabelView { name: n, value: v }),
                                    None => labels,
                                };
                                series_fields(data, o2 + (l as usize), labels2, samples)
                            } else {
                                series_fields(data, o2 + (l as usize), labels, samples.push(sample_fields(sub, 0, 0, 0)))
                            }
                        }
                    },
                }
            } else {
                series_fields(data, o1, labels, samples)
            }
        } else {
            Some(TimeSeriesView { labels, samples })
        }
    }
}

/// Reads a series message.
pub fn decode_timeseries(data: &[u8]) -> (r: Result<TimeSeries, prost::DecodeError>)
    ensures
        match series_fields(data@, 0, Seq::empty(), Seq::empty()) {
            Some(t) => r matches Ok(ts) && ts@ == t,
            None => r is Err,
        },
{
    let mut labels: Vec<Label> = Vec::new();
    let mut samples: Vec<Sample> = Vec::new();
    let mut offset: usize = 0;
    proof { assert(labels@.map_values(|l: Label| l@) =~= Seq::<LabelView>::empty()); }
    while offset < data.len()
        invariant_except_break
            series_fields(data@, 0, Seq::empty(), Seq::empty())
                == series_fields(data@, offset as int, labels@.map_values(|l: Label| l@), samples@),
        invariant
            offset <= data@.len(),
        ensures
            series_fields(data@, 0, Seq::empty(), Seq::empty()) == Some(TimeSeriesView { labels: labels@.map_values(|l: Label| l@), samples: samples@ }),
        decreases data@.len() - offset,
    {
        let b = data[offset];
        let field = b >> 3;
        let wire = b & 0x7;
        offset = offset + 1;
        if field == 1 || field == 2 {
            if wire == 2 {
                proof { lemma_varint_from(data@, offset as int, 0, 0); }
                let (len, new_offset) = match decode_varint(data, offset) {
                    Ok(x) => x,
                    Err(e) => return Err(e),
                };
                offset = new_offset;
                if !fits_exec(data, offset, len) {
                    break;
                }
                let end = offset + len as usize;
                let sub = &data[offset..end];
                if field == 1 {
                    match decode_label(sub) {
                        Ok(l) => {
                            proof { assert(labels@.push(l).map_values(|l: Label| l@) =~= labels@.map_values(|l: Label| l@).push(l@)); }
                            labels.push(l);
                        },
                        Err(_) => {},
                    }
                } else {
                    match decode_sample(sub) {
                        Ok(smp) => { samples.push(smp); },
                        Err(_) => {},
                    }
                }
                offset = end;
            }
        } else {
            break;
        }
    }
    Ok(TimeSeries { labels, samples })
}

/// The series of a remote write request: while at least eight bytes
/// remain, field 1 holds a length-delimited series (one that does not read
/// is dropped); anything else, or a series that runs past the data, ends
/// the request.
pub open spec fn write_fields(data: Seq<u8>, off: int, series: Seq<TimeSeriesView>) -> Option<Seq<TimeSeriesView>>
    decreases data.len() - off,
{
    if off < 0 || off >= data.len() || off + 8 > data.len() {
        Some(series)
    } else {
        let b = data[off];
        let o1 = off + 1;
        if field_of(b) == 1 && wire_of(b) == 2 {
            match varint_at(data, o1) {
                None => None,
                Some((l, o2)) => {
                    proof { lemma_varint_from(data, o1, 0, 0); }
                    if !fits(data, o2, l) {
                        Some(series)
                    } else {
                        let series2 = match series_fields(bytes_at(data, o2, l), 0, Seq::empty(), Seq::empty()) {
                            Some(t) => series.push(t),
                            None => series,
                        };
                        write_fields(data, o2 + (l as usize), series2)
                    }
                },
            }
        } else {
            Some(series)
        }
    }
}

/// Reads a remote write request.
pub fn decode_write_request(data: &[u8]) -> (r: Result<RemoteWriteRequest, prost::DecodeError>)
    ensures
        match write_fields(data@, 0, Seq::empty()) {
            Some(s) => r matches Ok(req) && series_view(req.timeseries@) == s,
            None => r is Err,
        },
{
    let mut timeseries: Vec<TimeSeries> = Vec::new();
    let mut offset: usize = 0;
    proof { assert(series_view(timeseries@) =~= Seq::<TimeSeriesView>::empty()); }
    while offset < data.len()
        invariant_except_break
            write_fields(data@, 0, Seq::empty()) == write_fields(data@, offset as int, series_view(timeseries@)),
        invariant
            offset <= data@.len(),
        ensures
            write_fields(data@, 0, Seq::empty()) == Some(series_view(timeseries@)),
        decreases data@.len() - offset,
    {
        if data.len() - offset < 8 {
            break;
        }
        let b = data[offset];
        let field = b >> 3;
        let wire = b & 0x7;
        offset = offset + 1;
        if field == 1 && wire == 2 {
            proof { lemma_varint_from(data@, offset as int, 0, 0); }
            let (len, new_offset) = match decode_varint(data, offset) {
                Ok(x) => x,
                Err(e) => return Err(e),
            };
            offset = new_offset;
            if !fits_exec(data, offset, len) {
                break;
            }
            let end = offset + len as usize;
            match decode_timeseries(&data[offset..end]) {
                Ok(ts) => {
                    proof { assert(series_view(timeseries@.push(ts)) =~= series_view(timeseries@).push(ts@)); }
                    timeseries.push(ts);
                },
                Err(_) => {},
            }
            offset = end;
        } else {
            break;
        }
    }
    Ok(RemoteWriteRequest { timeseries })
}

/// The name of a matcher message: field 1 (bytes, read as UTF-8 with
/// invalid sequences replaced); bytes that run past the message are
/// skipped; another field ends it.
pub open spec fn matcher_fields(data: Seq<u8>, off: int, name: Seq<char>) -> Option<Seq<char>>
    decreases data.len() - off,
{
    if off < 0 || off >= data.len() {
        Some(name)
    } else {
        let b = data[off];
        let o1 = off + 1;
        if field_of(b) == 1 {
            if wire_of(b) == 2 {
                match varint_at(data, o1) {
                    None => None,
                    Some((l, o2)) => {
                        proof { lemma_varint_from(data, o1, 0, 0); }
                        if fits(data, o2, l) {
                            matcher_fields(data, o2 + (l as usize), utf8_lossy(bytes_at(data, o2, l)))
                        } else {
                            matcher_fields(data, o2, name)
                        }
                    },
                }
            } else {
                matcher_fields(data, o1, name)
            }
        } else {
            Some(name)
        }
    }
}

/// Reads a matcher message; it has no label selectors.
pub fn decode_matcher(data: &[u8]) -> (r: Result<Matcher, prost::DecodeError>)
    ensures
        match matcher_fields(data@, 0, Seq::empty()) {
            Some(n) => r matches Ok(m) && m.name@ == n && m.label_selectors@.len() == 0,
            None => r is Err,
        },
{
    let mut name = String::new();
    let label_selectors: Vec<LabelSelector> = Vec::new();
    let mut offset: usize = 0;
    while offset < data.len()
        invariant_except_break
            matcher_fields(data@, 0, Seq::empty()) == matcher_fields(data@, offset as int, name@),
        invariant
            offset <= data@.len(),
        ensures
            matcher_fields(data@, 0, Seq::empty()) == Some(name@),
        decreases data@.len() - offset,
    {
        let b = data[offset];
        let field = b >> 3;
        let wire = b & 0x7;
        offset = offset + 1;
        if field == 1 {
            if wire == 2 {
                proof { lemma_varint_from(data@, offset as int, 0, 0); }
                let (len, new_offset) = match decode_varint(data, offset) {
                    Ok(x) => x,
                    Err(e) => return Err(e),
                };
                offset = new_offset;
                if fits_exec(data, offset, len) {
                    let end = offset + len as usize;
                    name = lossy_string(&data[offset..end]);
                    offset = end;
                }
            }
        } else {
            break;
        }
    }
    Ok(Matcher { name, label_selectors })
}

/// What a query message sets: its time range and its matchers' names.
pub struct QueryFields {
    pub start: i64,
    pub end: i64,
    pub matchers: Seq<Seq<char>>,
}

/// The fields of a query message: field 1 (eight bytes) is the start,
/// field 2 (eight bytes) the end, field 3 a length-delimited matcher (one
/// that does not read is dropped); bytes that run past the message are
/// skipped; another field ends it.
pub open spec fn query_fields(data: Seq<u8>, off: int, q: QueryFields) -> Option<QueryFields>
    decreases data.len() - off,
{
    if off < 0 || off >= data.len() {
        Some(q)
    } else {
        let b = data[off];
        let o1 = off + 1;
        if field_of(b) == 1 || field_of(b) == 2 {
            if wire_of(b) == 1 && o1 + 8 <= data.len() {
                let x = le_u64(data.subrange(o1, o1 + 8)) as i64;
                if field_of(b) == 1 {
                    query_fields(data, o1 + 8, QueryFields { start: x, ..q })
                } else {
                    query_fields(data, o1 + 8, QueryFields { end: x, ..q })
                }
            } else {
                query_fields(data, o1, q)
            }
        } else if field_of(b) == 3 {
            if wire_of(b) == 2 {
                match varint_at(data, o1) {
                    None => None,
                    Some((l, o2)) => {
                        proof { lemma_varint_from(data, o1, 0, 0); }
                        if fits(data, o2, l) {
                            let q2 = match matcher_fields(bytes_at(data, o2, l), 0, Seq::empty()) {
                                Some(n) => QueryFields { matchers: q.matchers.push(n), ..q },
                                None => q,
                            };
                            query_fields(data, o2 + (l as usize), q2)
                        } else {
                            query_fields(data, o2, q)
                        }
                    },
                }
            } else {
                query_fields(data, o1, q)
            }
        } else {
            Some(q)
        }
    }
}

/// The names of a list of matchers.
pub open spec fn matcher_names(m: Seq<Matcher>) -> Seq<Seq<char>> {
    m.map_values(|x: Matcher| x.name@)
}

/// Reads a query message: its start, end and matchers.
pub fn decode_query(data: &[u8]) -> (r: Result<(i64, i64, Vec<Matcher>), prost::DecodeError>)
    ensures
        match query_fields(data@, 0, QueryFields { start: 0, end: 0, matchers: Seq::empty() }) {
            Some(q) => r matches Ok((s, e, m)) && s == q.start && e == q.end && matcher_names(m@) == q.matchers,
            None => r is Err,
        },
{
    let mut start: i64 = 0;
    let mut end_ms: i64 = 0;
    let mut matchers: Vec<Matcher> = Vec::new();
    let mut offset: usize = 0;
    proof { assert(matcher_names(matchers@) =~= Seq::<Seq<char>>::empty()); }
    while offset < data.len()
        invariant_except_break
            query_fields(data@, 0, QueryFields { start: 0, end: 0, matchers: Seq::empty() })
                == query_fields(data@, offset as int, QueryFields { start, end: end_ms, matchers: matcher_names(matchers@) }),
        invariant
            offset <= data@.len(),
        ensures
            query_fields(data@, 0, QueryFields { start: 0, end: 0, matchers: Seq::empty() }) == Some(QueryFields { start, end: end_ms, matchers: matcher_names(matchers@) }),
        decreases data@.len() - offset,
    {
        let b = data[offset];
        let field = b >> 3;
        let wire = b & 0x7;
        offset = offset + 1;
        if field == 1 || field == 2 {
            if wire == 1 && data.len() - offset >= 8 {
                let x = read_u64_le(data, offset) as i64;
                if field == 1 {
                    start = x;
                } else {
                    end_ms = x;
                }
                offset = offset + 8;
            }
        } else if field == 3 {
            if wire == 2 {
                proof { lemma_varint_from(data@, offset as int, 0, 0); }
                let (len, new_offset) = match decode_varint(data, offset) {
                    Ok(x) => x,
                    Err(e) => return Err(e),
                };
                offset = new_offset;
                if fits_exec(data, offset, len) {
                    let e = offset + len as usize;
                    match decode_matcher(&data[offset..e]) {
                        Ok(m) => {
                            proof { assert(matcher_names(matchers@.push(m)) =~= matcher_names(matchers@).push(m.name@)); }
                            matchers.push(m);
                        },
                        Err(_) => {},
                    }
                    offset = e;
                }
            }
        } else {
            break;
        }
    }
    Ok((start, end_ms, matchers))
}

/// The query of a remote read request: field 1 holds a length-delimited
/// query message (a later one replaces an earlier; one that does not read
/// leaves it); bytes that run past the request are skipped; another field
/// ends it.
pub open spec fn read_fields(data: Seq<u8>, off: int, q: QueryFields) -> Option<QueryFields>
    decreases data.len() - off,
{
    if off < 0 || off >= data.len() {
        Some(q)
    } else {
        let b = data[off];
        let o1 = off + 1;
        if field_of(b) == 1 {
            if wire_of(b) == 2 {
                match varint_at(data, o1) {
                    None => None,
                    Some((l, o2)) => {
                        proof { lemma_varint_from(data, o1, 0, 0); }
                        if fits(data, o2, l) {
                            let q2 = match query_fields(bytes_at(data, o2, l), 0, QueryFields { start: 0, end: 0, matchers: Seq::empty() }) {
                                Some(x) => x,
                                None => q,
                            };
                            read_fields(data, o2 + (l as usize), q2)
                        } else {
                            read_fields(data, o2, q)
                        }
                    },
                }
            } else {
                read_fields(data, o1, q)
            }
        } else {
            Some(q)
        }
    }
}

/// Reads a remote read request.
pub fn decode_read_request(data: &[u8]) -> (r: Result<PrometheusQuery, prost::DecodeError>)
    ensures
        match read_fields(data@, 0, QueryFields { start: 0, end: 0, matchers: Seq::empty() }) {
            Some(q) => r matches Ok(pq) && pq.start_timestamp_ms == q.start && pq.end_timestamp_ms == q.end
                && matcher_names(pq.matchers@) == q.matchers,
            None => r is Err,
        },
{
    let mut query = PrometheusQuery { start_timestamp_ms: 0, end_timestamp_ms: 0, matchers: Vec::new() };
    let mut offset: usize = 0;
    proof { assert(matcher_names(query.matchers@) =~= Seq::<Seq<char>>::empty()); }
    while offset < data.len()
        invariant_except_break
            read_fields(data@, 0, QueryFields { start: 0, end: 0, matchers: Seq::empty() })
                == read_fields(data@, offset as int, QueryFields {
                    start: query.start_timestamp_ms,
                    end: query.end_timestamp_ms,
                    matchers: matcher_names(query.matchers@),
                }),
        invariant
            offset <= data@.len(),
        ensures
            read_fields(data@, 0, QueryFields { start: 0, end: 0, matchers: Seq::empty() }) == Some(QueryFields { start: query.start_timestamp_ms, end: query.end_timestamp_ms, matchers: matcher_names(query.matchers@) }),
        decreases data@.len() - offset,
    {
        let b = data[offset];
        let field = b >> 3;
        let wire = b & 0x7;
        offset = offset + 1;
        if field == 1 {
            if wire == 2 {
                proof { lemma_varint_from(data@, offset as int, 0, 0); }
                let (len, new_offset) = match decode_varint(data, offset) {
                    Ok(x) => x,
                    Err(e) => return Err(e),
                };
                offset = new_offset;
                if fits_exec(data, offset, len) {
                    let e = offset + len as usize;
                    match decode_query(&data[offset..e]) {
                        Ok((start, end_ms, matchers)) => {
                            query.start_timestamp_ms = start;
                            query.end_timestamp_ms = end_ms;
                            query.matchers = matchers;
                        },
                        Err(_) => {},
                    }
                    offset = e;
                }
            }
        } else {
            break;
        }
    }
    Ok(query)
}


// ----- writing -----

/// The varint of a number: seven bits per byte, least significant first,
/// the high bit set on every byte but the last.
pub open spec fn varint_bytes(v: u64) -> Seq<u8>
    decreases v,
{
    if v & !0x7fu64 == 0 {
        seq![v as u8]
    } else {
        proof { assert(v & !0x7fu64 != 0 ==> (v >> 7u64) < v) by (bit_vector); }
        seq![((v & 0x7f) as u8) | 0x80] + varint_bytes(v >> 7)
    }
}

/// The varint of a number.
pub fn encode_varint(value: u64) -> (r: Vec<u8>)
    ensures
        r@ == varint_bytes(value),
{
    let mut buf: Vec<u8> = Vec::new();
    let mut v = value;
    loop
        invariant_except_break
            buf@ + varint_bytes(v) == varint_bytes(value),
        ensures
            buf@ == varint_bytes(value),
        decreases v,
    {
        if v & !0x7fu64 == 0 {
            proof { assert(buf@.push(v as u8) =~= buf@ + varint_bytes(v)); }
            buf.push(v as u8);
            break;
        } else {
            proof {
                assert(v & !0x7fu64 != 0 ==> (v >> 7u64) < v) by (bit_vector);
                assert(buf@.push(((v & 0x7f) as u8) | 0x80) + varint_bytes(v >> 7) =~= buf@ + varint_bytes(v));
            }
            buf.push(((v & 0x7f) as u8) | 0x80);
            v = v >> 7;
        }
    }
    buf
}

proof fn lemma_varint_step(w: u64, shift: u64, acc: u64)
    requires
        shift < 64,
        (w << shift) >> shift == w,
        acc < (1u64 << shift),
    ensures
        w & !0x7fu64 == 0 ==> (acc | (((w as u8 & 0x7f) as u64) << shift)) == (acc | (w << shift)),
        w & !0x7fu64 == 0 ==> (w as u8) & 0x80 == 0,
        w & !0x7fu64 != 0 ==> shift + 7 < 64,
        w & !0x7fu64 != 0 ==> ((((w & 0x7f) as u8) | 0x80) & 0x80) != 0,
        w & !0x7fu64 != 0 ==> ((w >> 7u64) << ((shift + 7) as u64)) >> ((shift + 7) as u64) == (w >> 7u64),
        w & !0x7fu64 != 0 ==> (acc | ((((((w & 0x7f) as u8) | 0x80) & 0x7f) as u64) << shift)) < (1u64 << ((shift + 7) as u64)),
        w & !0x7fu64 != 0 ==> ((acc | ((((((w & 0x7f) as u8) | 0x80) & 0x7f) as u64) << shift)) | ((w >> 7u64) << ((shift + 7) as u64))) == (acc | (w << shift)),
{
    assert(w & !0x7fu64 == 0 ==> (acc | (((w as u8 & 0x7f) as u64) << shift)) == (acc | (w << shift))) by (bit_vector)
        requires shift < 64;
    assert(w & !0x7fu64 == 0 ==> (w as u8) & 0x80 == 0) by (bit_vector);
    assert(w & !0x7fu64 != 0 ==> shift + 7 < 64) by (bit_vector)
        requires shift < 64, (w << shift) >> shift == w;
    assert(w & !0x7fu64 != 0 ==> ((((w & 0x7f) as u8) | 0x80) & 0x80) != 0) by (bit_vector);
    assert(w & !0x7fu64 != 0 ==> ((w >> 7u64) << ((shift + 7) as u64)) >> ((shift + 7) as u64) == (w >> 7u64)) by (bit_vector)
        requires shift < 64, (w << shift) >> shift == w;
    assert(w & !0x7fu64 != 0 ==> (acc | ((((((w & 0x7f) as u8) | 0x80) & 0x7f) as u64) << shift)) < (1u64 << ((shift + 7) as u64))) by (bit_vector)
        requires shift < 64, (w << shift) >> shift == w, acc < (1u64 << shift);
    assert(w & !0x7fu64 != 0 ==> ((acc | ((((((w & 0x7f) as u8) | 0x80) & 0x7f) as u64) << shift)) | ((w >> 7u64) << ((shift + 7) as u64))) == (acc | (w << shift))) by (bit_vector)
        requires shift < 64, (w << shift) >> shift == w, acc < (1u64 << shift);
}

proof fn lemma_varint_read(data: Seq<u8>, off: int, w: u64, shift: u64, acc: u64)
    requires
        0 <= off,
        off + varint_bytes(w).len() <= data.len(),
        data.subrange(off, off + varint_bytes(w).len()) == varint_bytes(w),
        shift < 64,
        (w << shift) >> shift == w,
        acc < (1u64 << shift),
    ensures
        varint_from(data, off, shift, acc) == Some((acc | (w << shift), off + varint_bytes(w).len())),
    decreases w,
{
    lemma_varint_step(w, shift, acc);
    let vb = varint_bytes(w);
    assert(data[off] == vb[0]) by {
        assert(data.subrange(off, off + vb.len())[0] == data[off]);
    }
    if w & !0x7fu64 != 0 {
        assert(w & !0x7fu64 != 0 ==> (w >> 7u64) < w) by (bit_vector);
        let rest = varint_bytes(w >> 7);
        assert(vb == seq![((w & 0x7f) as u8) | 0x80] + rest);
        assert(data.subrange(off + 1, off + 1 + rest.len()) =~= rest) by {
            assert forall|i: int| 0 <= i < rest.len() implies data.subrange(off + 1, off + 1 + rest.len())[i] == rest[i] by {
                assert(data.subrange(off, off + vb.len())[i + 1] == vb[i + 1]);
            }
        }
        let b = data[off];
        let acc2 = acc | (((b & 0x7f) as u64) << shift);
        lemma_varint_read(data, off + 1, w >> 7, (shift + 7) as u64, acc2);
    }
}

/// A varint reads back as the number it was written from, wherever it
/// stands, and ends where its bytes end, whatever precedes or follows it.
pub proof fn law_varint_round_trip(v: u64, prefix: Seq<u8>, rest: Seq<u8>)
    ensures
        varint_at(prefix + varint_bytes(v) + rest, prefix.len() as int)
            == Some((v, prefix.len() + varint_bytes(v).len() as int)),
{
    let data = prefix + varint_bytes(v) + rest;
    let off = prefix.len() as int;
    assert(data.subrange(off, off + varint_bytes(v).len()) =~= varint_bytes(v));
    assert((v << 0u64) >> 0u64 == v) by (bit_vector);
    assert(0u64 < (1u64 << 0u64)) by (bit_vector);
    assert((0u64 | (v << 0u64)) == v) by (bit_vector);
    lemma_varint_read(data, off, v, 0, 0);
}

/// 128 to the power `n`.
pub open spec fn pow128(n: nat) -> int
    decreases n,
{
    if n == 0 { 1 } else { 128 * pow128((n - 1) as nat) }
}

/// The varint of a number has as many bytes as it takes groups of seven
/// bits to hold it, and at least one: `n` bytes where `128^(n-1) <= v <
/// 128^n` (or one byte for a number below 128); at most ten.
pub proof fn law_varint_length(v: u64)
    ensures
        1 <= varint_bytes(v).len() <= 10,
        (v as int) < pow128(varint_bytes(v).len()),
        varint_bytes(v).len() > 1 ==> pow128((varint_bytes(v).len() - 1) as nat) <= (v as int),
    decreases v,
{
    assert(v & !0x7fu64 == 0 <==> v < 128) by (bit_vector);
    if v & !0x7fu64 != 0 {
        assert(v & !0x7fu64 != 0 ==> (v >> 7u64) < v) by (bit_vector);
        assert((v >> 7u64) == v / 128) by (bit_vector);
        law_varint_length(v >> 7);
        let n = varint_bytes(v >> 7).len();
        assert(varint_bytes(v).len() == n + 1);
        assert(pow128(n + 1) == 128 * pow128(n));
        if n > 1 {
            assert(pow128(n) == 128 * pow128((n - 1) as nat));
        }
        assert(n <= 9) by {
            if n == 10 {
                assert(pow128(9) == 128 * pow128(8));
                assert(pow128(8) == 128 * pow128(7));
                assert(pow128(7) == 128 * pow128(6));
                assert(pow128(6) == 128 * pow128(5));
                assert(pow128(5) == 128 * pow128(4));
                assert(pow128(4) == 128 * pow128(3));
                assert(pow128(3) == 128 * pow128(2));
                assert(pow128(2) == 128 * pow128(1));
                assert(pow128(1) == 128 * pow128(0));
                assert((v >> 7u64) < 0x200000000000000) by (bit_vector);
            }
        }
    }
}

/// A length-delimited field: its key byte, the length as a varint, then
/// the bytes.
pub open spec fn delimited(key: u8, body: Seq<u8>) -> Seq<u8> {
    seq![key] + varint_bytes(body.len() as u64) + body
}

/// Length-delimited fields with one key, one per body, in order.
pub open spec fn delimited_all(key: u8, bodies: Seq<Seq<u8>>) -> Seq<u8>
    decreases bodies.len(),
{
    if bodies.len() == 0 {
        Seq::empty()
    } else {
        delimited_all(key, bodies.drop_last()) + delimited(key, bodies.last())
    }
}

/// The message of a label: the name (field 1) and the value (field 2) as
/// UTF-8.
pub open spec fn label_bytes(l: LabelView) -> Seq<u8> {
    delimited(0x0a, vstd::utf8::encode_utf8(l.name)) + delimited(0x12, vstd::utf8::encode_utf8(l.value))
}

/// The message of a sample: the value bits (field 1) and the timestamp
/// (field 2), eight little-endian bytes each.
pub open spec fn sample_bytes(smp: Sample) -> Seq<u8> {
    seq![0x09u8] + crate::bloom::le_bytes(smp.value_bits) + seq![0x11u8] + crate::bloom::le_bytes(smp.timestamp as u64)
}

/// The message of a series: its labels (field 1), then its samples
/// (field 2).
pub open spec fn series_bytes(t: TimeSeriesView) -> Seq<u8> {
    delimited_all(0x0a, t.labels.map_values(|l: LabelView| label_bytes(l)))
        + delimited_all(0x12, t.samples.map_values(|smp: Sample| sample_bytes(smp)))
}

/// The message of a query result: its series (field 1).
pub open spec fn result_bytes(r: Seq<TimeSeriesView>) -> Seq<u8> {
    delimited_all(0x0a, r.map_values(|t: TimeSeriesView| series_bytes(t)))
}

fn append_bytes(buf: &mut Vec<u8>, other: &[u8])
    ensures
        final(buf)@ == old(buf)@ + other@,
{
    buf.extend_from_slice(other);
    proof { assert(buf@ =~= old(buf)@ + other@); }
}

fn push_delimited(buf: &mut Vec<u8>, key: u8, body: &[u8])
    ensures
        final(buf)@ == old(buf)@ + delimited(key, body@),
{
    buf.push(key);
    let len = encode_varint(body.len() as u64);
    append_bytes(buf, len.as_slice());
    append_bytes(buf, body);
    proof { assert(buf@ =~= old(buf)@ + delimited(key, body@)); }
}

/// Writes a label message.
pub fn encode_label(label: &Label) -> (r: Vec<u8>)
    ensures
        r@ == label_bytes(label@),
{
    let mut buf: Vec<u8> = Vec::new();
    push_delimited(&mut buf, 0x0a, label.name.as_str().as_bytes());
    push_delimited(&mut buf, 0x12, label.value.as_str().as_bytes());
    proof { assert(buf@ =~= label_bytes(label@)); }
    buf
}

/// Writes a sample message.
pub fn encode_sample(sample: &Sample) -> (r: Vec<u8>)
    ensures
        r@ == sample_bytes(*sample),
{
    let mut buf: Vec<u8> = Vec::new();
    buf.push(0x09);
    let v = crate::bloom::u64_le_bytes(sample.value_bits);
    append_bytes(&mut buf, &v);
    buf.push(0x11);
    let t = crate::bloom::u64_le_bytes(sample.timestamp as u64);
    append_bytes(&mut buf, &t);
    proof { assert(buf@ =~= sample_bytes(*sample)); }
    buf
}

/// Writes a series message.
pub fn encode_timeseries(ts: &TimeSeries) -> (r: Vec<u8>)
    ensures
        r@ == series_bytes(ts@),
{
    let ghost lv = ts.labels@.map_values(|l: Label| l@);
    let ghost lb = lv.map_values(|l: LabelView| label_bytes(l));
    let mut buf: Vec<u8> = Vec::new();
    let mut i: usize = 0;
    proof { assert(lb.subrange(0, 0) =~= Seq::<Seq<u8>>::empty()); }
    while i < ts.labels.len()
        invariant
            i <= ts.labels@.len(),
            lv == ts.labels@.map_values(|l: Label| l@),
            lb == lv.map_values(|l: LabelView| label_bytes(l)),
            buf@ == delimited_all(0x0a, lb.subrange(0, i as int)),
        decreases ts.labels@.len() - i,
    {
        let body = encode_label(&ts.labels[i]);
        proof { assert(lb.subrange(0, i + 1).drop_last() =~= lb.subrange(0, i as int)); }
        push_delimited(&mut buf, 0x0a, body.as_slice());
        i = i + 1;
    }
    proof { assert(lb.subrange(0, lb.len() as int) =~= lb); }
    let ghost head = buf@;
    let ghost sb = ts.samples@.map_values(|smp: Sample| sample_bytes(smp));
    let mut j: usize = 0;
    proof { assert(sb.subrange(0, 0) =~= Seq::<Seq<u8>>::empty()); assert(head + Seq::<u8>::empty() =~= head); }
    while j < ts.samples.len()
        invariant
            j <= ts.samples@.len(),
            sb == ts.samples@.map_values(|smp: Sample| sample_bytes(smp)),
            buf@ == head + delimited_all(0x12, sb.subrange(0, j as int)),
        decreases ts.samples@.len() - j,
    {
        let body = encode_sample(&ts.samples[j]);
        proof { assert(sb.subrange(0, j + 1).drop_last() =~= sb.subrange(0, j as int)); }
        push_delimited(&mut buf, 0x12, body.as_slice());
        proof {
            assert(buf@ =~= head + delimited_all(0x12, sb.subrange(0, j + 1)));
        }
        j = j + 1;
    }
    proof { assert(sb.subrange(0, sb.len() as int) =~= sb); }
    buf
}

/// Writes the message of a query result.
pub fn encode_query_result(result: &QueryResult) -> (r: Vec<u8>)
    ensures
        r@ == result_bytes(series_view(result.timeseries@)),
{
    let ghost tb = series_view(result.timeseries@).map_values(|t: TimeSeriesView| series_bytes(t));
    let mut buf: Vec<u8> = Vec::new();
    let mut i: usize = 0;
    proof { assert(tb.subrange(0, 0) =~= Seq::<Seq<u8>>::empty()); }
    while i < result.timeseries.len()
        invariant
            i <= result.timeseries@.len(),
            tb == series_view(result.timeseries@).map_values(|t: TimeSeriesView| series_bytes(t)),
            buf@ == delimited_all(0x0a, tb.subrange(0, i as int)),
        decreases result.timeseries@.len() - i,
    {
        let body = encode_timeseries(&result.timeseries[i]);
        proof { assert(tb.subrange(0, i + 1).drop_last() =~= tb.subrange(0, i as int)); }
        push_delimited(&mut buf, 0x0a, body.as_slice());
        i = i + 1;
    }
    proof { assert(tb.subrange(0, tb.len() as int) =~= tb); }
    buf
}

/// The message of a read response: its results (field 1).
pub open spec fn response_bytes(results: Seq<QueryResult>) -> Seq<u8> {
    delimited_all(0x0a, results.map_values(|r: QueryResult| result_bytes(series_view(r.timeseries@))))
}

/// Writes a read response.
pub fn encode_read_response(response: &PrometheusReadResponse) -> (r: Vec<u8>)
    ensures
        r@ == response_bytes(response.results@),
{
    let ghost rb = response.results@.map_values(|r: QueryResult| result_bytes(series_view(r.timeseries@)));
    let mut buf: Vec<u8> = Vec::new();
    let mut i: usize = 0;
    proof { assert(rb.subrange(0, 0) =~= Seq::<Seq<u8>>::empty()); }
    while i < response.results.len()
        invariant
            i <= response.results@.len(),
            rb == response.results@.map_values(|r: QueryResult| result_bytes(series_view(r.timeseries@))),
            buf@ == delimited_all(0x0a, rb.subrange(0, i as int)),
        decreases response.results@.len() - i,
    {
        let body = encode_query_result(&response.results[i]);
        proof { assert(rb.subrange(0, i + 1).drop_last() =~= rb.subrange(0, i as int)); }
        push_delimited(&mut buf, 0x0a, body.as_slice());
        i = i + 1;
    }
    proof { assert(rb.subrange(0, rb.len() as int) =~= rb); }
    buf
}


/// One gauge in the text exposition format: its help line, its type line
/// and its value.
pub open spec fn gauge_text(name: Seq<char>, help: Seq<char>, value: nat) -> Seq<char> {
    "# HELP "@ + name + " "@ + help + "\n"@ + "# TYPE "@ + name + " gauge\n"@ + name + " "@ + crate::text::dec_nat(value) + "\n"@
}

fn push_gauge(out: &mut String, name: &str, help: &str, value: u64)
    ensures
        final(out)@ == old(out)@ + gauge_text(name@, help@, value as nat),
{
    push_str(out, "# HELP ");
    push_str(out, name);
    push_str(out, " ");
    push_str(out, help);
    push_str(out, "\n");
    push_str(out, "# TYPE ");
    push_str(out, name);
    push_str(out, " gauge\n");
    push_str(out, name);
    push_str(out, " ");
    append_u64(out, value);
    push_str(out, "\n");
    proof { assert(out@ =~= old(out)@ + gauge_text(name@, help@, value as nat)); }
}

/// The engine's counters in the Prometheus text exposition format: the
/// number of series, the in-memory table's size in bytes and its rows, the
/// columnar files, the write-ahead log entries and the shards.
pub open spec fn metrics_text(stats: crate::stats::EngineStats) -> Seq<char> {
    gauge_text("openGemini_series_count"@, "Number of series in the database"@, stats.series_count as nat)
        + gauge_text("openGemini_memtable_size_bytes"@, "Size of the memtable in bytes"@, stats.memtable_size as nat)
        + gauge_text("openGemini_memtable_row_count"@, "Number of rows in the memtable"@, stats.memtable_row_count as nat)
        + gauge_text("openGemini_tssp_file_count"@, "Number of TSSP files"@, stats.tssp_file_count as nat)
        + gauge_text("openGemini_wal_entries"@, "Number of entries in WAL"@, stats.wal_entries as nat)
        + gauge_text("openGemini_shard_count"@, "Number of shards"@, stats.shard_count as nat)
}

/// The engine's counters in the Prometheus text exposition format.
pub fn format_metrics(stats: &crate::stats::EngineStats) -> (r: String)
    ensures
        r@ == metrics_text(*stats),
{
    let mut out = String::new();
    push_gauge(&mut out, "openGemini_series_count", "Number of series in the database", stats.series_count as u64);
    push_gauge(&mut out, "openGemini_memtable_size_bytes", "Size of the memtable in bytes", stats.memtable_size);
    push_gauge(&mut out, "openGemini_memtable_row_count", "Number of rows in the memtable", stats.memtable_row_count);
    push_gauge(&mut out, "openGemini_tssp_file_count", "Number of TSSP files", stats.tssp_file_count as u64);
    push_gauge(&mut out, "openGemini_wal_entries", "Number of entries in WAL", stats.wal_entries as u64);
    push_gauge(&mut out, "openGemini_shard_count", "Number of shards", stats.shard_count as u64);
    proof { assert(out@ =~= metrics_text(*stats)); }
    out
}


// ----- PromQL metric names -----

/// The end of the run of a character from `i`.
pub open spec fn run_end(s: Seq<char>, c: char, i: int) -> int
    decreases s.len() - i,
{
    if 0 <= i < s.len() && s[i] == c { run_end(s, c, i + 1) } else { i }
}

/// The start of the run of a character that ends at `e`.
pub open spec fn run_start(s: Seq<char>, c: char, e: int) -> int
    decreases e,
{
    if 0 < e <= s.len() && s[e - 1] == c { run_start(s, c, e - 1) } else { e }
}

/// A text without a character repeated at its start and its end, as
/// `str::trim_matches` takes it off.
pub open spec fn trim_char(s: Seq<char>, c: char) -> Seq<char> {
    let b = run_end(s, c, 0);
    let e = run_start(s, c, s.len() as int);
    if b < e { s.subrange(b, e) } else { Seq::empty() }
}

proof fn lemma_runs(s: Seq<char>, c: char, i: int, e: int)
    requires
        0 <= i <= s.len(),
        0 <= e <= s.len(),
    ensures
        i <= run_end(s, c, i) <= s.len(),
        0 <= run_start(s, c, e) <= e,
    decreases s.len() - i + e,
{
    if i < s.len() && s[i] == c {
        lemma_runs(s, c, i + 1, e);
    } else if 0 < e && s[e - 1] == c {
        lemma_runs(s, c, i, e - 1);
    }
}

fn trim_matches(s: &str, c: char) -> (r: String)
    ensures
        r@ == trim_char(s@, c),
{
    let n = s.unicode_len();
    proof { lemma_runs(s@, c, 0, n as int); }
    let mut b: usize = 0;
    while b < n && s.get_char(b) == c
        invariant
            n == s@.len(),
            b <= n,
            run_end(s@, c, 0) == run_end(s@, c, b as int),
        decreases n - b,
    {
        b = b + 1;
    }
    let mut e: usize = n;
    while e > 0 && s.get_char(e - 1) == c
        invariant
            n == s@.len(),
            e <= n,
            run_start(s@, c, n as int) == run_start(s@, c, e as int),
        decreases e,
    {
        e = e - 1;
    }
    if b < e { s.substring_char(b, e).to_owned() } else { String::new() }
}

/// The labels of a selector's pieces between commas: a piece of exactly
/// two parts around `=` gives its trimmed name and its value without
/// surrounding double, then single, quotes; names that start with `__` are
/// left out.
pub open spec fn selector_labels(pieces: Seq<Seq<char>>) -> Seq<(Seq<char>, Seq<char>)>
    decreases pieces.len(),
{
    if pieces.len() == 0 {
        Seq::empty()
    } else {
        let rest = selector_labels(pieces.drop_last());
        let parts = split_on(pieces.last(), '=');
        if parts.len() == 2 {
            let key = trim_seq(parts[0]);
            let value = trim_char(trim_char(parts[1], '"'), '\'');
            if "__"@.is_prefix_of(key) { rest } else { rest.push((key, value)) }
        } else {
            rest
        }
    }
}

/// Whether a name is one a metric can have: not empty and without `(`.
pub open spec fn plain_name(name: Seq<char>) -> bool {
    name.len() > 0 && char_pos(name, '(') is None
}

/// The labels that a PromQL query names, in the order they are set (a
/// later one of a name replaces an earlier one): `__name__` is `unknown`,
/// then the name before `{` (or the whole query, trimmed) where it is
/// plain, then the labels between `{` and the first `}` (or the end).
pub open spec fn promql_metric(q: Seq<char>) -> Seq<(Seq<char>, Seq<char>)> {
    let base = seq![("__name__"@, "unknown"@)];
    match char_pos(q, '{') {
        Some(b) => {
            let name = trim_seq(q.subrange(0, b));
            let named = if plain_name(name) { base.push(("__name__"@, name)) } else { base };
            let e = match char_pos(q, '}') { Some(e) => e, None => q.len() as int };
            named + selector_labels(split_on(q.subrange(b + 1, e), ','))
        },
        None => {
            let name = trim_seq(q);
            if plain_name(name) { base.push(("__name__"@, name)) } else { base }
        },
    }
}

/// Whether a query's first `}`, if any, does not come before its first `{`
/// (the labels between them are taken as a slice).
pub open spec fn braces_in_order(q: Seq<char>) -> bool {
    match (char_pos(q, '{'), char_pos(q, '}')) {
        (Some(b), Some(e)) => b + 1 <= e,
        _ => true,
    }
}

/// Reads the labels of a PromQL query's metric.
pub fn parse_promql_metric(query: &str) -> (r: Vec<(String, String)>)
    requires
        braces_in_order(query@),
    ensures
        pairs(r@) == promql_metric(query@),
{
    proof { reveal_strlit("__"); }
    let mut metric: Vec<(String, String)> = Vec::new();
    metric.push(("__name__".to_owned(), "unknown".to_owned()));
    proof { assert(pairs(metric@) =~= seq![("__name__"@, "unknown"@)]); }
    let n = query.unicode_len();
    match find_char(query, '{') {
        Some(b) => {
            let name = trim(query.substring_char(0, b));
            if name.unicode_len() > 0 && find_char(name.as_str(), '(').is_none() {
                let ghost before = pairs(metric@);
                metric.push(("__name__".to_owned(), name));
                proof { assert(pairs(metric@) =~= before.push(("__name__"@, trim_seq(query@.subrange(0, b as int))))); }
            }
            let e = match find_char(query, '}') { Some(e) => e, None => n };
            let pieces = split_char(query.substring_char(b + 1, e), ',');
            let ghost named = pairs(metric@);
            let mut i: usize = 0;
            proof {
                assert(strings(pieces@).take(0) =~= Seq::<Seq<char>>::empty());
                assert(named + Seq::<(Seq<char>, Seq<char>)>::empty() =~= named);
            }
            while i < pieces.len()
                invariant
                    i <= pieces@.len(),
                    pairs(metric@) == named + selector_labels(strings(pieces@).take(i as int)),
                decreases pieces@.len() - i,
            {
                let ghost acc = pairs(metric@);
                proof {
                    let t = strings(pieces@).take(i + 1);
                    assert(t.drop_last() =~= strings(pieces@).take(i as int));
                    assert(t.last() == pieces@[i as int]@);
                }
                let parts = split_char(pieces[i].as_str(), '=');
                if parts.len() == 2 {
                    let key = trim(parts[0].as_str());
                    let value = trim_matches(trim_matches(parts[1].as_str(), '"').as_str(), '\'');
                    proof {
                        assert(strings(parts@)[0] == parts@[0]@);
                        assert(strings(parts@)[1] == parts@[1]@);
                    }
                    if !starts_with(key.as_str(), "__") {
                        proof {
                            assert(pairs(metric@.push((key, value))) =~= acc.push((key@, value@)));
                            assert(named + selector_labels(strings(pieces@).take(i as int)).push((key@, value@))
                                =~= (named + selector_labels(strings(pieces@).take(i as int))).push((key@, value@)));
                        }
                        metric.push((key, value));
                    }
                }
                i = i + 1;
            }
            proof { assert(strings(pieces@).take(pieces@.len() as int) =~= strings(pieces@)); }
        },
        None => {
            let name = trim(query);
            if name.unicode_len() > 0 && find_char(name.as_str(), '(').is_none() {
                let ghost before = pairs(metric@);
                metric.push(("__name__".to_owned(), name));
                proof { assert(pairs(metric@) =~= before.push(("__name__"@, trim_seq(query@)))); }
            }
        },
    }
    metric
}

} // verus!
