//! What a `/query` request does with its statement: the engine operation a
//! statement asks for, and the answer built from what the engine replied.
//! The server runs the operation between the two steps.

use vstd::prelude::*;
use vstd::string::*;
use crate::http::{format_http_response, http_response, join, joined, names_response, names_body,
    policies_body, policies_response, series_count_body, series_count_response, success_body,
    success_response, use_response};
use crate::influxql::{opt_view, pairs_view, strings_view, CreateRetentionPolicy, RetentionPolicyView,
    Statement, StatementView};
use crate::line_protocol::strings;
use crate::text::{push_char, push_str};

verus! {

/// The number of rows a `SELECT` without `LIMIT` reads.
pub const DEFAULT_QUERY_LIMIT: usize = 1000;

/// An engine operation that a statement asks for.
#[derive(Debug, Clone)]
pub enum QueryAction {
    /// Read a measurement over all time and answer with its rows; the
    /// limit is the text of `LIMIT`, which the engine reads as a number
    /// (`DEFAULT_QUERY_LIMIT` rows when there is none).
    Select { measurement: String, fields: Vec<String>, limit: Option<String> },
    CreateDatabase(String),
    CreateRetentionPolicy(CreateRetentionPolicy),
    /// Write one row: measurement, tags, field texts, timestamp text.
    Insert { measurement: String, tags: Vec<(String, String)>, fields: Vec<(String, String)>, timestamp: Option<String> },
    DropDatabase(String),
    DropMeasurement(String),
    /// Answer success without asking the engine (`DROP SERIES`, `DELETE`).
    Acknowledge,
    SeriesCount,
    /// The retention policies of a database (the empty name when none was given).
    RetentionPolicies(String),
    Databases,
    Measurements,
    TagKeys(Option<String>),
    FieldKeys(Option<String>),
    /// Answer with the database chosen, without asking the engine.
    Use(String),
    /// A statement the server does not carry out.
    NotImplemented,
}

/// The abstract value of an engine operation.
pub enum QueryActionView {
    Select(Seq<char>, Seq<Seq<char>>, Option<Seq<char>>),
    CreateDatabase(Seq<char>),
    CreateRetentionPolicy(RetentionPolicyView),
    Insert(Seq<char>, Seq<(Seq<char>, Seq<char>)>, Seq<(Seq<char>, Seq<char>)>, Option<Seq<char>>),
    DropDatabase(Seq<char>),
    DropMeasurement(Seq<char>),
    Acknowledge,
    SeriesCount,
    RetentionPolicies(Seq<char>),
    Databases,
    Measurements,
    TagKeys(Option<Seq<char>>),
    FieldKeys(Option<Seq<char>>),
    Use(Seq<char>),
    NotImplemented,
}

impl View for QueryAction {
    type V = QueryActionView;

    open spec fn view(&self) -> QueryActionView {
        match self {
            QueryAction::Select { measurement, fields, limit } =>
                QueryActionView::Select(measurement@, strings_view(fields@), opt_view(*limit)),
            QueryAction::CreateDatabase(n) => QueryActionView::CreateDatabase(n@),
            QueryAction::CreateRetentionPolicy(p) => QueryActionView::CreateRetentionPolicy(RetentionPolicyView {
                name: p.name@,
                database: p.database@,
                duration_seconds: p.duration_seconds,
                replication: opt_view(p.replication),
                default: p.default,
            }),
            QueryAction::Insert { measurement, tags, fields, timestamp } =>
                QueryActionView::Insert(measurement@, pairs_view(tags@), pairs_view(fields@), opt_view(*timestamp)),
            QueryAction::DropDatabase(n) => QueryActionView::DropDatabase(n@),
            QueryAction::DropMeasurement(n) => QueryActionView::DropMeasurement(n@),
            QueryAction::Acknowledge => QueryActionView::Acknowledge,
            QueryAction::SeriesCount => QueryActionView::SeriesCount,
            QueryAction::RetentionPolicies(d) => QueryActionView::RetentionPolicies(d@),
            QueryAction::Databases => QueryActionView::Databases,
            QueryAction::Measurements => QueryActionView::Measurements,
            QueryAction::TagKeys(m) => QueryActionView::TagKeys(opt_view(*m)),
            QueryAction::FieldKeys(m) => QueryActionView::FieldKeys(opt_view(*m)),
            QueryAction::Use(d) => QueryActionView::Use(d@),
            QueryAction::NotImplemented => QueryActionView::NotImplemented,
        }
    }
}

/// The operation a statement asks for.
pub open spec fn action_of(st: StatementView) -> QueryActionView {
    match st {
        StatementView::Select(s) => QueryActionView::Select(s.measurement, s.fields, s.limit),
        StatementView::CreateDatabase(n) => QueryActionView::CreateDatabase(n),
        StatementView::CreateRetentionPolicy(p) => QueryActionView::CreateRetentionPolicy(p),
        StatementView::Insert(m, t, f, ts) => QueryActionView::Insert(m, t, f, ts),
        StatementView::DropDatabase(n) => QueryActionView::DropDatabase(n),
        StatementView::DropMeasurement(n) => QueryActionView::DropMeasurement(n),
        StatementView::DropSeries(_) => QueryActionView::Acknowledge,
        StatementView::Delete(_) => QueryActionView::Acknowledge,
        StatementView::ShowSeries => QueryActionView::SeriesCount,
        StatementView::ShowRetentionPolicies(d) => QueryActionView::RetentionPolicies(
            match d { Some(d) => d, None => Seq::empty() }),
        StatementView::ShowDatabases => QueryActionView::Databases,
        StatementView::ShowMeasurements => QueryActionView::Measurements,
        StatementView::ShowTagKeys(m) => QueryActionView::TagKeys(m),
        StatementView::ShowFieldKeys(m) => QueryActionView::FieldKeys(m),
        StatementView::Use(d) => QueryActionView::Use(d),
        StatementView::ShowTagValues(_, _) => QueryActionView::NotImplemented,
    }
}

fn copy_opt(o: &Option<String>) -> (r: Option<String>)
    ensures
        opt_view(r) == opt_view(*o),
{
    match o {
        Some(s) => Some(s.clone()),
        None => None,
    }
}

fn copy_strings(v: &Vec<String>) -> (r: Vec<String>)
    ensures
        strings_view(r@) == strings_view(v@),
{
    let mut r: Vec<String> = Vec::new();
    let mut i: usize = 0;
    while i < v.len()
        invariant
            i <= v@.len(),
            strings_view(r@) == strings_view(v@).take(i as int),
        decreases v@.len() - i,
    {
        proof { assert(strings_view(r@.push(v[i as int])) =~= strings_view(r@).push(v@[i as int]@)); }
        r.push(v[i].clone());
        proof { assert(strings_view(v@).take(i + 1) =~= strings_view(v@).take(i as int).push(v@[i as int]@)); }
        i = i + 1;
    }
    proof { assert(strings_view(v@).take(v@.len() as int) =~= strings_view(v@)); }
    r
}

fn copy_pairs(v: &Vec<(String, String)>) -> (r: Vec<(String, String)>)
    ensures
        pairs_view(r@) == pairs_view(v@),
{
    let mut r: Vec<(String, String)> = Vec::new();
    let mut i: usize = 0;
    while i < v.len()
        invariant
            i <= v@.len(),
            pairs_view(r@) == pairs_view(v@).take(i as int),
        decreases v@.len() - i,
    {
        let p = (v[i].0.clone(), v[i].1.clone());
        proof { assert(pairs_view(r@.push(p)) =~= pairs_view(r@).push((v@[i as int].0@, v@[i as int].1@))); }
        r.push(p);
        proof { assert(pairs_view(v@).take(i + 1) =~= pairs_view(v@).take(i as int).push((v@[i as int].0@, v@[i as int].1@))); }
        i = i + 1;
    }
    proof { assert(pairs_view(v@).take(v@.len() as int) =~= pairs_view(v@)); }
    r
}

/// The engine operation a statement asks for.
pub fn query_action(stmt: &Statement) -> (r: QueryAction)
    ensures
        r@ == action_of(stmt@),
{
    match stmt {
        Statement::Select(s) => QueryAction::Select {
            measurement: s.measurement.clone(),
            fields: copy_strings(&s.fields),
            limit: copy_opt(&s.limit),
        },
        Statement::CreateDatabase(n) => QueryAction::CreateDatabase(n.clone()),
        Statement::CreateRetentionPolicy(p) => QueryAction::CreateRetentionPolicy(CreateRetentionPolicy {
            name: p.name.clone(),
            database: p.database.clone(),
            duration_seconds: p.duration_seconds,
            replication: copy_opt(&p.replication),
            default: p.default,
        }),
        Statement::Insert { measurement, tags, fields, timestamp } => QueryAction::Insert {
            measurement: measurement.clone(),
            tags: copy_pairs(tags),
            fields: copy_pairs(fields),
            timestamp: copy_opt(timestamp),
        },
        Statement::DropDatabase(n) => QueryAction::DropDatabase(n.clone()),
        Statement::DropMeasurement(n) => QueryAction::DropMeasurement(n.clone()),
        Statement::DropSeries { .. } => QueryAction::Acknowledge,
        Statement::Delete { .. } => QueryAction::Acknowledge,
        Statement::ShowSeries => QueryAction::SeriesCount,
        Statement::ShowRetentionPolicies(d) => QueryAction::RetentionPolicies(match d {
            Some(d) => d.clone(),
            None => String::new(),
        }),
        Statement::ShowDatabases => QueryAction::Databases,
        Statement::ShowMeasurements => QueryAction::Measurements,
        Statement::ShowTagKeys(m) => QueryAction::TagKeys(copy_opt(m)),
        Statement::ShowFieldKeys(m) => QueryAction::FieldKeys(copy_opt(m)),
        Statement::Use { database } => QueryAction::Use(database.clone()),
        Statement::ShowTagValues(_, _) => QueryAction::NotImplemented,
    }
}

/// What the engine replied to an operation.
#[derive(Debug, Clone)]
pub enum EngineOutcome {
    /// There is no engine to ask.
    Missing,
    /// The operation failed, with the error's text.
    Failed(String),
    /// The operation succeeded with nothing to report.
    Done,
    /// Names: databases, measurements, tag keys or field keys.
    Names(Vec<String>),
    /// The number of series.
    Count(usize),
    /// Retention policies: name, duration in seconds, replica count.
    Policies(Vec<(String, u64, u32)>),
    /// The rows read, each as the JSON text of its values.
    Rows(Vec<String>),
}

/// The abstract value of an engine's reply.
pub enum EngineOutcomeView {
    Missing,
    Failed(Seq<char>),
    Done,
    Names(Seq<Seq<char>>),
    Count(nat),
    Policies(Seq<(String, u64, u32)>),
    Rows(Seq<Seq<char>>),
}

impl View for EngineOutcome {
    type V = EngineOutcomeView;

    open spec fn view(&self) -> EngineOutcomeView {
        match self {
            EngineOutcome::Missing => EngineOutcomeView::Missing,
            EngineOutcome::Failed(t) => EngineOutcomeView::Failed(t@),
            EngineOutcome::Done => EngineOutcomeView::Done,
            EngineOutcome::Names(n) => EngineOutcomeView::Names(strings(n@)),
            EngineOutcome::Count(n) => EngineOutcomeView::Count(*n as nat),
            EngineOutcome::Policies(p) => EngineOutcomeView::Policies(p@),
            EngineOutcome::Rows(r) => EngineOutcomeView::Rows(strings(r@)),
        }
    }
}

/// A hexadecimal digit, in lower case.
pub open spec fn hex_digit(n: u32) -> char {
    if n < 10 { (n + 48) as char } else { (n + 87) as char }
}

/// A character as it stands inside a JSON string: `"` and `\` escaped,
/// the usual control characters by their short escapes, the other control
/// characters as `\u00XX`.
pub open spec fn json_char(c: char) -> Seq<char> {
    if c == '"' { "\\\""@ }
    else if c == '\\' { "\\\\"@ }
    else if c == '\n' { "\\n"@ }
    else if c == '\r' { "\\r"@ }
    else if c == '\t' { "\\t"@ }
    else if c == '\x08' { "\\b"@ }
    else if c == '\x0c' { "\\f"@ }
    else if (c as u32) < 0x20 { "\\u00"@ + seq![hex_digit((c as u32) / 16), hex_digit((c as u32) % 16)] }
    else { seq![c] }
}

/// A text as it stands inside a JSON string.
pub open spec fn json_escaped(s: Seq<char>) -> Seq<char>
    decreases s.len(),
{
    if s.len() == 0 { Seq::empty() } else { json_escaped(s.drop_last()) + json_char(s.last()) }
}

fn push_json_char(out: &mut String, c: char)
    ensures
        final(out)@ == old(out)@ + json_char(c),
{
    proof {
        reveal_strlit("\\\""); reveal_strlit("\\\\"); reveal_strlit("\\n"); reveal_strlit("\\r");
        reveal_strlit("\\t"); reveal_strlit("\\b"); reveal_strlit("\\f"); reveal_strlit("\\u00");
    }
    if c == '"' { push_str(out, "\\\""); }
    else if c == '\\' { push_str(out, "\\\\"); }
    else if c == '\n' { push_str(out, "\\n"); }
    else if c == '\r' { push_str(out, "\\r"); }
    else if c == '\t' { push_str(out, "\\t"); }
    else if c == '\x08' { push_str(out, "\\b"); }
    else if c == '\x0c' { push_str(out, "\\f"); }
    else if (c as u32) < 0x20 {
        let n = c as u32;
        let hi = n / 16;
        let lo = n % 16;
        push_str(out, "\\u00");
        let d1 = if hi < 10 { ((hi + 48) as u8) as char } else { ((hi + 87) as u8) as char };
        let d2 = if lo < 10 { ((lo + 48) as u8) as char } else { ((lo + 87) as u8) as char };
        assert(d1 == hex_digit(hi));
        assert(d2 == hex_digit(lo));
        push_char(out, d1);
        push_char(out, d2);
        proof { assert(final(out)@ =~= old(out)@ + json_char(c)); }
    } else {
        push_char(out, c);
        proof { assert(final(out)@ =~= old(out)@ + json_char(c)); }
    }
}

fn push_json_escaped(out: &mut String, s: &str)
    ensures
        final(out)@ == old(out)@ + json_escaped(s@),
{
    let n = s.unicode_len();
    let mut i: usize = 0;
    while i < n
        invariant
            n == s@.len(),
            i <= n,
            out@ == old(out)@ + json_escaped(s@.take(i as int)),
        decreases n - i,
    {
        proof { assert(s@.take(i + 1).drop_last() =~= s@.take(i as int)); }
        push_json_char(out, s.get_char(i));
        proof { assert(out@ =~= old(out)@ + json_escaped(s@.take(i + 1))); }
        i = i + 1;
    }
    proof { assert(s@.take(n as int) =~= s@); }
}

/// Whether a field list holds `*`.
pub open spec fn has_star(fields: Seq<Seq<char>>) -> bool {
    exists|i: int| 0 <= i < fields.len() && fields[i] == "*"@
}

/// The JSON entries of column names after `time`: `,"name"` each.
pub open spec fn column_entries(fields: Seq<Seq<char>>) -> Seq<char>
    decreases fields.len(),
{
    if fields.len() == 0 {
        Seq::empty()
    } else {
        column_entries(fields.drop_last()) + ",\""@ + json_escaped(fields.last()) + "\""@
    }
}

/// The JSON list of the columns of a result: `time` alone when the fields
/// hold `*`, else `time` and the fields.
pub open spec fn columns_json(fields: Seq<Seq<char>>) -> Seq<char> {
    if has_star(fields) { "[\"time\"]"@ } else { "[\"time\""@ + column_entries(fields) + "]"@ }
}

/// The body of a `SELECT`'s answer: one series named after the
/// measurement, with its columns and its rows.
pub open spec fn results_body(measurement: Seq<char>, fields: Seq<Seq<char>>, rows: Seq<Seq<char>>) -> Seq<char> {
    "{\"results\":[{\"series\":[{\"name\":\""@ + measurement + "\",\"columns\":"@ + columns_json(fields)
        + ",\"values\":["@ + joined(rows, ","@) + "]}]}]}"@
}

fn columns_text(fields: &Vec<String>) -> (r: String)
    ensures
        r@ == columns_json(strings_view(fields@)),
{
    let ghost f = strings_view(fields@);
    let mut i: usize = 0;
    while i < fields.len()
        invariant
            f == strings_view(fields@),
            i <= fields@.len(),
            forall|j: int| 0 <= j < i ==> f[j] != "*"@,
        decreases fields@.len() - i,
    {
        if crate::text::str_eq(fields[i].as_str(), "*") {
            proof { assert(f[i as int] == "*"@); }
            return "[\"time\"]".to_owned();
        }
        i = i + 1;
    }
    let mut out = "[\"time\"".to_owned();
    let ghost start = out@;
    let mut k: usize = 0;
    while k < fields.len()
        invariant
            f == strings_view(fields@),
            k <= fields@.len(),
            out@ == start + column_entries(f.take(k as int)),
        decreases fields@.len() - k,
    {
        proof { assert(f.take(k + 1).drop_last() =~= f.take(k as int)); }
        push_str(&mut out, ",\"");
        push_json_escaped(&mut out, fields[k].as_str());
        push_str(&mut out, "\"");
        proof { assert(out@ =~= start + column_entries(f.take(k + 1))); }
        k = k + 1;
    }
    push_str(&mut out, "]");
    proof {
        assert(f.take(fields@.len() as int) =~= f);
        assert(out@ =~= "[\"time\""@ + column_entries(f) + "]"@);
    }
    out
}

/// The answer to a request whose operation and engine reply do not go
/// together.
pub open spec fn mismatch_answer() -> Seq<char> {
    http_response(500, "Internal Server Error"@, "unexpected engine reply"@)
}

/// The answer once the engine has replied to an operation that needs it.
pub open spec fn reply_answer(a: QueryActionView, o: EngineOutcomeView) -> Seq<char> {
    match (a, o) {
        (QueryActionView::Select(m, fields, _), EngineOutcomeView::Rows(rows)) =>
            http_response(200, "OK"@, results_body(m, fields, rows)),
        (QueryActionView::CreateDatabase(_), EngineOutcomeView::Done) => http_response(200, "OK"@, success_body()),
        (QueryActionView::CreateRetentionPolicy(_), EngineOutcomeView::Done) => http_response(200, "OK"@, success_body()),
        (QueryActionView::Insert(_, _, _, _), EngineOutcomeView::Done) => http_response(200, "OK"@, success_body()),
        (QueryActionView::DropDatabase(_), EngineOutcomeView::Done) => http_response(200, "OK"@, success_body()),
        (QueryActionView::DropMeasurement(_), EngineOutcomeView::Done) => http_response(200, "OK"@, success_body()),
        (QueryActionView::SeriesCount, EngineOutcomeView::Count(n)) => http_response(200, "OK"@, series_count_body(n)),
        (QueryActionView::RetentionPolicies(_), EngineOutcomeView::Policies(p)) => http_response(200, "OK"@, policies_body(p)),
        (QueryActionView::Databases, EngineOutcomeView::Names(n)) => http_response(200, "OK"@, names_body("databases"@, n)),
        (QueryActionView::Measurements, EngineOutcomeView::Names(n)) => http_response(200, "OK"@, names_body("measurements"@, n)),
        (QueryActionView::TagKeys(_), EngineOutcomeView::Names(n)) => http_response(200, "OK"@, names_body("tagKeys"@, n)),
        (QueryActionView::FieldKeys(_), EngineOutcomeView::Names(n)) => http_response(200, "OK"@, names_body("fieldKeys"@, n)),
        _ => mismatch_answer(),
    }
}

/// The answer to a `/query` request from its operation and the engine's
/// reply: 501 for a statement not carried out; `USE`, `DROP SERIES` and
/// `DELETE` answered without the engine; 500 when there is no engine or the
/// operation failed; else 200 with what the operation gives.
pub open spec fn answer_of(a: QueryActionView, o: EngineOutcomeView) -> Seq<char> {
    match a {
        QueryActionView::NotImplemented => http_response(501, "Not Implemented"@, "Query type not implemented"@),
        QueryActionView::Use(d) => http_response(200, "OK"@,
            "{\"results\":[{\"success\":true,\"database\":\""@ + d + "\"}]}"@),
        QueryActionView::Acknowledge => http_response(200, "OK"@, success_body()),
        _ => match o {
            EngineOutcomeView::Missing => http_response(500, "Internal Server Error"@, "Engine not initialized"@),
            EngineOutcomeView::Failed(t) => http_response(500, "Internal Server Error"@, t),
            _ => reply_answer(a, o),
        },
    }
}

fn select_answer(measurement: &String, fields: &Vec<String>, rows: &Vec<String>) -> (r: String)
    ensures
        r@ == http_response(200, "OK"@, results_body(measurement@, strings_view(fields@), strings(rows@))),
{
    let mut body = "{\"results\":[{\"series\":[{\"name\":\"".to_owned();
    push_str(&mut body, measurement.as_str());
    push_str(&mut body, "\",\"columns\":");
    let cols = columns_text(fields);
    push_str(&mut body, cols.as_str());
    push_str(&mut body, ",\"values\":[");
    let j = join(rows, ",");
    push_str(&mut body, j.as_str());
    push_str(&mut body, "]}]}]}");
    format_http_response(200, "OK", body.as_str())
}

/// The answer to a `/query` request from its operation and what the engine
/// replied.
pub fn query_answer(action: &QueryAction, outcome: &EngineOutcome) -> (r: String)
    ensures
        r@ == answer_of(action@, outcome@),
{
    match action {
        QueryAction::NotImplemented => {
            return format_http_response(501, "Not Implemented", "Query type not implemented");
        },
        QueryAction::Use(d) => { return use_response(d.as_str()); },
        QueryAction::Acknowledge => { return success_response(); },
        _ => {},
    }
    match outcome {
        EngineOutcome::Missing => {
            return format_http_response(500, "Internal Server Error", "Engine not initialized");
        },
        EngineOutcome::Failed(t) => {
            return format_http_response(500, "Internal Server Error", t.as_str());
        },
        _ => {},
    }
    match (action, outcome) {
        (QueryAction::Select { measurement, fields, .. }, EngineOutcome::Rows(rows)) =>
            select_answer(measurement, fields, rows),
        (QueryAction::CreateDatabase(_), EngineOutcome::Done) => success_response(),
        (QueryAction::CreateRetentionPolicy(_), EngineOutcome::Done) => success_response(),
        (QueryAction::Insert { .. }, EngineOutcome::Done) => success_response(),
        (QueryAction::DropDatabase(_), EngineOutcome::Done) => success_response(),
        (QueryAction::DropMeasurement(_), EngineOutcome::Done) => success_response(),
        (QueryAction::SeriesCount, EngineOutcome::Count(n)) => series_count_response(*n),
        (QueryAction::RetentionPolicies(_), EngineOutcome::Policies(p)) => policies_response(p),
        (QueryAction::Databases, EngineOutcome::Names(n)) => names_response("databases", n),
        (QueryAction::Measurements, EngineOutcome::Names(n)) => names_response("measurements", n),
        (QueryAction::TagKeys(_), EngineOutcome::Names(n)) => names_response("tagKeys", n),
        (QueryAction::FieldKeys(_), EngineOutcome::Names(n)) => names_response("fieldKeys", n),
        _ => format_http_response(500, "Internal Server Error", "unexpected engine reply"),
    }
}

} // verus!
