//! Queries over the schema: what a request asks for, whether the schema can
//! answer it, and the page of rows it gets.
//!
//! The request's filter is of the caller's type: the rows handed to
//! `execute_select` are those that it keeps.

use vstd::prelude::*;
use vstd::string::*;
use crate::error::Error;
use crate::keyed::lemma_keyed_facts;
use crate::schema::{rp_key, rp_val, schema_message, DatabaseView, Schema};
use crate::stats::TimeRange;
use crate::text::{push_str, str_eq};
use crate::http::{join, joined};
use crate::line_protocol::strings;

verus! {

/// A query: the database and measurement, the time range, the fields, a
/// filter, the tags to group by, and a limit and an offset.
#[derive(Debug, Clone)]
pub struct QueryRequest<F> {
    pub database: String,
    pub measurement: String,
    pub time_range: TimeRange,
    pub selected_fields: Vec<String>,
    pub filter: Option<F>,
    pub group_by: Vec<String>,
    pub limit: Option<usize>,
    pub offset: Option<usize>,
}

impl<F> QueryRequest<F> {
    /// A request for all fields of a measurement over a time range.
    pub fn new(database: String, measurement: String, time_range: TimeRange) -> (r: Self)
        ensures
            r.database == database,
            r.measurement == measurement,
            r.time_range == time_range,
            r.selected_fields@.len() == 0,
            r.filter is None,
            r.group_by@.len() == 0,
            r.limit is None,
            r.offset is None,
    {
        QueryRequest {
            database,
            measurement,
            time_range,
            selected_fields: Vec::new(),
            filter: None,
            group_by: Vec::new(),
            limit: None,
            offset: None,
        }
    }

    /// The request with these fields.
    pub fn with_fields(self, fields: Vec<String>) -> (r: Self)
        ensures
            r == (QueryRequest { selected_fields: fields, ..self }),
    {
        QueryRequest { selected_fields: fields, ..self }
    }

    /// The request with this filter.
    pub fn with_filter(self, filter: F) -> (r: Self)
        ensures
            r == (QueryRequest { filter: Some(filter), ..self }),
    {
        QueryRequest { filter: Some(filter), ..self }
    }

    /// The request with this limit.
    pub fn with_limit(self, limit: usize) -> (r: Self)
        ensures
            r == (QueryRequest { limit: Some(limit), ..self }),
    {
        QueryRequest { limit: Some(limit), ..self }
    }

    /// The request grouped by these tags.
    pub fn with_group_by(self, group_by: Vec<String>) -> (r: Self)
        ensures
            r == (QueryRequest { group_by: group_by, ..self }),
    {
        QueryRequest { group_by: group_by, ..self }
    }
}

/// Whether a database has a policy that queries can use: its default is
/// kept, or it has any policy at all.
pub open spec fn has_usable_policy(d: DatabaseView) -> bool {
    (match d.default_rp {
        Some(n) => d.retention_policies.contains_key(n),
        None => false,
    }) || exists|k: Seq<char>| d.retention_policies.contains_key(k)
}

/// Why a request cannot be answered.
pub enum QueryProblem {
    EmptyMeasurement,
    MissingDatabase,
    NoPolicy,
}

/// Why a request for a measurement of a database cannot be answered, if it
/// cannot: the measurement is not named, the database does not exist, or
/// it has no policy to read.
pub open spec fn query_problem(dbs: Map<Seq<char>, DatabaseView>, database: Seq<char>, measurement: Seq<char>) -> Option<QueryProblem> {
    if measurement.len() == 0 {
        Some(QueryProblem::EmptyMeasurement)
    } else if !dbs.contains_key(database) {
        Some(QueryProblem::MissingDatabase)
    } else if !has_usable_policy(dbs[database]) {
        Some(QueryProblem::NoPolicy)
    } else {
        None
    }
}

/// Whether an error is the one that reports a problem with a request for
/// the database.
pub open spec fn problem_error(p: QueryProblem, database: Seq<char>, e: Error) -> bool {
    match p {
        QueryProblem::EmptyMeasurement => e matches Error::InvalidArgument(m) && m@ == "measurement cannot be empty"@,
        QueryProblem::MissingDatabase => e matches Error::Schema(m) && m@ == schema_message("database "@, database, " not found"@),
        QueryProblem::NoPolicy => e matches Error::Schema(m)
            && m@ == schema_message("no retention policy in database "@, database, ""@),
    }
}

/// Runs queries against a schema.
pub struct QueryExecutor {
    pub schema: Schema,
}

impl QueryExecutor {
    /// Whether the schema is well-formed.
    pub open spec fn wf(&self) -> bool {
        self.schema.wf()
    }

    /// An executor over a schema.
    pub fn new(schema: Schema) -> (r: Self)
        requires
            schema.wf(),
        ensures
            r.wf(),
            r.schema == schema,
    {
        QueryExecutor { schema }
    }

    /// An executor over a schema.
    pub fn with_schema(schema: Schema) -> (r: Self)
        requires
            schema.wf(),
        ensures
            r.wf(),
            r.schema == schema,
    {
        QueryExecutor { schema }
    }

    /// Whether a request can be answered: its measurement is named, its
    /// database exists and has a policy to read.
    pub fn validate_query<F>(&self, request: &QueryRequest<F>) -> (r: Result<(), Error>)
        requires
            self.wf(),
        ensures
            match query_problem(self.schema.dbs(), request.database@, request.measurement@) {
                None => r is Ok,
                Some(p) => r matches Err(e) && problem_error(p, request.database@, e),
            },
    {
        if request.measurement.unicode_len() == 0 {
            return Err(Error::InvalidArgument("measurement cannot be empty".to_owned()));
        }
        let db = match self.schema.get_database(request.database.as_str()) {
            Some(d) => d,
            None => {
                return Err(Error::Schema(crate::schema::message("database ", request.database.as_str(), " not found")));
            },
        };
        if db.get_default_rp().is_none() && db.retention_policies.len() == 0 {
            proof { lemma_keyed_facts(db.retention_policies@, rp_key(), rp_val()); }
            return Err(Error::Schema(crate::schema::message("no retention policy in database ", request.database.as_str(), "")));
        }
        proof {
            lemma_keyed_facts(db.retention_policies@, rp_key(), rp_val());
            if db.retention_policies@.len() > 0 {
                assert(db@.retention_policies.contains_key(rp_key()(db.retention_policies@[0])));
            }
        }
        Ok(())
    }

    /// The fields a measurement offers: the time, its tags and its fields,
    /// where the database exists and has a default policy.
    pub fn get_measurement_fields(&self, db_name: &str, measurement: &str) -> (r: Result<Vec<String>, Error>)
        requires
            self.wf(),
        ensures
            !self.schema.dbs().contains_key(db_name@)
                ==> (r matches Err(Error::Schema(m)) && m@ == schema_message("database "@, db_name@, " not found"@)),
            self.schema.dbs().contains_key(db_name@) ==> match self.schema.dbs()[db_name@].default_rp {
                Some(n) if self.schema.dbs()[db_name@].retention_policies.contains_key(n) =>
                    r matches Ok(v) && crate::line_protocol::strings(v@) == seq!["_time"@, "tag_*"@, "field_*"@],
                _ => r matches Err(Error::Schema(m))
                    && m@ == schema_message("no default retention policy in database "@, db_name@, ""@),
            },
    {
        let db = match self.schema.get_database(db_name) {
            Some(d) => d,
            None => {
                return Err(Error::Schema(crate::schema::message("database ", db_name, " not found")));
            },
        };
        if db.get_default_rp().is_none() {
            return Err(Error::Schema(crate::schema::message("no default retention policy in database ", db_name, "")));
        }
        let v = vec!["_time".to_owned(), "tag_*".to_owned(), "field_*".to_owned()];
        proof {
            assert(crate::line_protocol::strings(v@) =~= seq!["_time"@, "tag_*"@, "field_*"@]);
        }
        Ok(v)
    }

    /// Answers a request from the rows that its filter keeps: when it can
    /// be answered, the rows cut to the limit, then past the offset.
    pub fn execute_select<F, R>(&self, request: &QueryRequest<F>, rows: Vec<R>) -> (r: Result<Vec<R>, Error>)
        requires
            self.wf(),
        ensures
            match query_problem(self.schema.dbs(), request.database@, request.measurement@) {
                None => r matches Ok(v) && v@ == page(rows@, request.limit, request.offset),
                Some(p) => r matches Err(e) && problem_error(p, request.database@, e),
            },
    {
        match self.validate_query(request) {
            Ok(()) => {},
            Err(e) => { return Err(e); },
        }
        let mut results = rows;
        match request.limit {
            Some(limit) => { results.truncate(limit); },
            None => {},
        }
        match request.offset {
            Some(offset) => {
                if offset < results.len() {
                    results = results.split_off(offset);
                } else {
                    results.clear();
                }
            },
            None => {},
        }
        Ok(results)
    }
}

impl QueryExecutor {
    /// A request's rows grouped by its tags with the selected fields'
    /// integer values summed; without tags to group by, the page of rows
    /// that `execute_select` gives.
    pub fn aggregate_group_by<F>(&self, request: &QueryRequest<F>, rows: Vec<QueryRow>) -> (r: Result<Vec<QueryRow>, Error>)
        requires
            self.wf(),
        ensures
            request.group_by@.len() == 0 ==> match query_problem(self.schema.dbs(), request.database@, request.measurement@) {
                None => r matches Ok(v) && v@ == page(rows@, request.limit, request.offset),
                Some(p) => r matches Err(e) && problem_error(p, request.database@, e),
            },
            request.group_by@.len() > 0 ==> (r matches Ok(v) && rows_view(v@)
                == grouped_sums(strings(request.group_by@), strings(request.selected_fields@), rows_view(rows@))),
    {
        if request.group_by.len() == 0 {
            return self.execute_select(request, rows);
        }
        Ok(crate::query::aggregate_group_by(&request.group_by, &request.selected_fields, &rows))
    }
}

/// The rows of a page: the first `limit` of them, then those past the
/// first `offset` (none when the offset reaches the end).
pub open spec fn page<R>(rows: Seq<R>, limit: Option<usize>, offset: Option<usize>) -> Seq<R> {
    let limited = match limit {
        Some(l) => if l < rows.len() { rows.take(l as int) } else { rows },
        None => rows,
    };
    match offset {
        Some(o) => if o < limited.len() { limited.skip(o as int) } else { Seq::empty() },
        None => limited,
    }
}


/// A page keeps the rows in their order: with a limit `l` (and no
/// offset) it is the first `l` rows, or all of them when there are no
/// more; with an offset `o` it starts at the row `o` places after the start
/// of what the limit keeps.
pub proof fn law_page_keeps_leading_rows<R>(rows: Seq<R>, limit: Option<usize>, offset: Option<usize>)
    ensures
        forall|l: usize| limit == Some(l) && offset is None && l < rows.len() ==> (
            #[trigger] page(rows, Some(l), offset).len() == l
            && forall|i: int| 0 <= i < l ==> #[trigger] page(rows, Some(l), offset)[i] == rows[i]),
        limit is None && offset is None ==> page(rows, limit, offset) == rows,
        forall|i: int| 0 <= i < page(rows, limit, offset).len() ==> {
            let o = match offset { Some(o) => o as int, None => 0 };
            &&& o + i < rows.len()
            &&& (limit matches Some(l) ==> o + i < l)
            &&& #[trigger] page(rows, limit, offset)[i] == rows[o + i]
        },
{
}

// ----- grouping by tags -----

/// A field value of a row being grouped; a float is held by its bits.
#[derive(Debug, Clone)]
pub enum QueryValue {
    Integer(i64),
    Float(u64),
    String(Vec<u8>),
    Boolean(bool),
    Unsigned(u64),
}

/// A row being grouped: its tags and fields, a later pair of a name
/// standing for that name, and its timestamp.
#[derive(Debug, Clone)]
pub struct QueryRow {
    pub tags: Vec<(String, String)>,
    pub fields: Vec<(String, QueryValue)>,
    pub timestamp: i64,
}

/// The abstract value of a field value.
pub enum QueryValueView {
    Integer(i64),
    Float(u64),
    String(Seq<u8>),
    Boolean(bool),
    Unsigned(u64),
}

/// The abstract value of a row being grouped.
pub struct QueryRowView {
    pub tags: Seq<(Seq<char>, Seq<char>)>,
    pub fields: Seq<(Seq<char>, QueryValueView)>,
    pub timestamp: i64,
}

impl View for QueryValue {
    type V = QueryValueView;

    open spec fn view(&self) -> QueryValueView {
        match self {
            QueryValue::Integer(v) => QueryValueView::Integer(*v),
            QueryValue::Float(b) => QueryValueView::Float(*b),
            QueryValue::String(s) => QueryValueView::String(s@),
            QueryValue::Boolean(b) => QueryValueView::Boolean(*b),
            QueryValue::Unsigned(u) => QueryValueView::Unsigned(*u),
        }
    }
}

impl View for QueryRow {
    type V = QueryRowView;

    open spec fn view(&self) -> QueryRowView {
        QueryRowView {
            tags: self.tags@.map_values(|t: (String, String)| (t.0@, t.1@)),
            fields: self.fields@.map_values(|f: (String, QueryValue)| (f.0@, f.1@)),
            timestamp: self.timestamp,
        }
    }
}

/// The abstract values of rows.
pub open spec fn rows_view(v: Seq<QueryRow>) -> Seq<QueryRowView> {
    v.map_values(|r: QueryRow| r@)
}

/// The value of a tag: that of the last pair of the name, or empty.
pub open spec fn tag_value(tags: Seq<(Seq<char>, Seq<char>)>, name: Seq<char>) -> Seq<char>
    decreases tags.len(),
{
    if tags.len() == 0 {
        Seq::empty()
    } else if tags.last().0 == name {
        tags.last().1
    } else {
        tag_value(tags.drop_last(), name)
    }
}

/// The key of a row's group: its values of the grouping tags, joined by
/// commas.
pub open spec fn group_key(group_by: Seq<Seq<char>>, r: QueryRowView) -> Seq<char> {
    joined(group_by.map_values(|t: Seq<char>| tag_value(r.tags, t)), ","@)
}

/// The keys of the groups, in the order their first rows come.
pub open spec fn group_keys(group_by: Seq<Seq<char>>, rows: Seq<QueryRowView>) -> Seq<Seq<char>>
    decreases rows.len(),
{
    if rows.len() == 0 {
        Seq::empty()
    } else {
        let k = group_keys(group_by, rows.drop_last());
        let key = group_key(group_by, rows.last());
        if k.contains(key) { k } else { k.push(key) }
    }
}

/// The rows of a group, in order.
pub open spec fn members(group_by: Seq<Seq<char>>, rows: Seq<QueryRowView>, key: Seq<char>) -> Seq<QueryRowView>
    decreases rows.len(),
{
    if rows.len() == 0 {
        Seq::empty()
    } else if group_key(group_by, rows.last()) == key {
        members(group_by, rows.drop_last(), key).push(rows.last())
    } else {
        members(group_by, rows.drop_last(), key)
    }
}

/// The integer value of a field: that of the last pair of the name, when
/// it is an integer.
pub open spec fn field_int(fields: Seq<(Seq<char>, QueryValueView)>, name: Seq<char>) -> Option<i64>
    decreases fields.len(),
{
    if fields.len() == 0 {
        None
    } else if fields.last().0 == name {
        match fields.last().1 {
            QueryValueView::Integer(v) => Some(v),
            _ => None,
        }
    } else {
        field_int(fields.drop_last(), name)
    }
}

/// Whether any row has an integer value of a field, and the sum of those
/// values, wrapping.
pub open spec fn int_sum(rows: Seq<QueryRowView>, name: Seq<char>) -> (bool, i64)
    decreases rows.len(),
{
    if rows.len() == 0 {
        (false, 0i64)
    } else {
        let (any, sum) = int_sum(rows.drop_last(), name);
        match field_int(rows.last().fields, name) {
            Some(v) => (true, sum.wrapping_add(v)),
            None => (any, sum),
        }
    }
}

/// The fields of a group's row: for each selected field in order, `_time`
/// as the first row's timestamp, or the sum of the integer values where
/// there are any.
pub open spec fn group_fields(selected: Seq<Seq<char>>, ms: Seq<QueryRowView>) -> Seq<(Seq<char>, QueryValueView)>
    decreases selected.len(),
{
    if selected.len() == 0 {
        Seq::empty()
    } else {
        let rest = group_fields(selected.drop_last(), ms);
        let f = selected.last();
        if f == "_time"@ {
            rest.push((f, QueryValueView::Integer(ms[0].timestamp)))
        } else if int_sum(ms, f).0 {
            rest.push((f, QueryValueView::Integer(int_sum(ms, f).1)))
        } else {
            rest
        }
    }
}

/// The rows of grouping by tags: one per group, in the order of the
/// groups' first rows, with the first row's tags and timestamp and the
/// group's fields.
pub open spec fn grouped_sums(group_by: Seq<Seq<char>>, selected: Seq<Seq<char>>, rows: Seq<QueryRowView>) -> Seq<QueryRowView> {
    group_keys(group_by, rows).map_values(|k: Seq<char>| {
        let ms = members(group_by, rows, k);
        QueryRowView { tags: ms[0].tags, fields: group_fields(selected, ms), timestamp: ms[0].timestamp }
    })
}

fn tag_value_of(tags: &Vec<(String, String)>, name: &str) -> (r: String)
    ensures
        r@ == tag_value(tags@.map_values(|t: (String, String)| (t.0@, t.1@)), name@),
{
    let ghost tv = tags@.map_values(|t: (String, String)| (t.0@, t.1@));
    let mut r = String::new();
    let mut i: usize = 0;
    while i < tags.len()
        invariant
            tv == tags@.map_values(|t: (String, String)| (t.0@, t.1@)),
            i <= tags@.len(),
            r@ == tag_value(tv.take(i as int), name@),
        decreases tags@.len() - i,
    {
        proof { assert(tv.take(i + 1).drop_last() =~= tv.take(i as int)); }
        if str_eq(tags[i].0.as_str(), name) {
            r = tags[i].1.clone();
        }
        i = i + 1;
    }
    proof { assert(tv.take(tags@.len() as int) =~= tv); }
    r
}

fn key_of(group_by: &Vec<String>, row: &QueryRow) -> (r: String)
    ensures
        r@ == group_key(strings(group_by@), row@),
{
    let mut vals: Vec<String> = Vec::new();
    let mut i: usize = 0;
    while i < group_by.len()
        invariant
            i <= group_by@.len(),
            strings(vals@) == strings(group_by@).take(i as int).map_values(|t: Seq<char>| tag_value(row@.tags, t)),
        decreases group_by@.len() - i,
    {
        let v = tag_value_of(&row.tags, group_by[i].as_str());
        proof {
            assert(strings(vals@.push(v)) =~= strings(vals@).push(v@));
            assert(strings(group_by@).take(i + 1).map_values(|t: Seq<char>| tag_value(row@.tags, t))
                =~= strings(group_by@).take(i as int).map_values(|t: Seq<char>| tag_value(row@.tags, t)).push(v@));
        }
        vals.push(v);
        i = i + 1;
    }
    proof { assert(strings(group_by@).take(group_by@.len() as int) =~= strings(group_by@)); }
    join(&vals, ",")
}

fn field_int_of(fields: &Vec<(String, QueryValue)>, name: &str) -> (r: Option<i64>)
    ensures
        r == field_int(fields@.map_values(|f: (String, QueryValue)| (f.0@, f.1@)), name@),
{
    let ghost fv = fields@.map_values(|f: (String, QueryValue)| (f.0@, f.1@));
    let mut r: Option<i64> = None;
    let mut i: usize = 0;
    while i < fields.len()
        invariant
            fv == fields@.map_values(|f: (String, QueryValue)| (f.0@, f.1@)),
            i <= fields@.len(),
            r == field_int(fv.take(i as int), name@),
        decreases fields@.len() - i,
    {
        proof { assert(fv.take(i + 1).drop_last() =~= fv.take(i as int)); }
        if str_eq(fields[i].0.as_str(), name) {
            r = match &fields[i].1 {
                QueryValue::Integer(v) => Some(*v),
                _ => None,
            };
        }
        i = i + 1;
    }
    proof { assert(fv.take(fields@.len() as int) =~= fv); }
    r
}

fn contains_text(v: &Vec<String>, s: &String) -> (r: bool)
    ensures
        r == strings(v@).contains(s@),
{
    let mut i: usize = 0;
    while i < v.len()
        invariant
            i <= v@.len(),
            forall|j: int| 0 <= j < i ==> v@[j]@ != s@,
        decreases v@.len() - i,
    {
        if str_eq(v[i].as_str(), s.as_str()) {
            proof { assert(strings(v@)[i as int] == s@); }
            return true;
        }
        i = i + 1;
    }
    proof {
        if strings(v@).contains(s@) {
            let j = choose|j: int| 0 <= j < strings(v@).len() && strings(v@)[j] == s@;
            assert(v@[j]@ == s@);
        }
    }
    false
}

/// Groups rows by the values of tags and sums each selected field's
/// integer values within each group.
pub fn aggregate_group_by(group_by: &Vec<String>, selected_fields: &Vec<String>, rows: &Vec<QueryRow>) -> (r: Vec<QueryRow>)
    ensures
        rows_view(r@) == grouped_sums(strings(group_by@), strings(selected_fields@), rows_view(rows@)),
{
    let ghost gb = strings(group_by@);
    let ghost rv = rows_view(rows@);
    // the keys of the groups, in order
    let mut keys: Vec<String> = Vec::new();
    let mut i: usize = 0;
    while i < rows.len()
        invariant
            gb == strings(group_by@),
            rv == rows_view(rows@),
            i <= rows@.len(),
            strings(keys@) == group_keys(gb, rv.take(i as int)),
        decreases rows@.len() - i,
    {
        proof { assert(rv.take(i + 1).drop_last() =~= rv.take(i as int)); }
        let k = key_of(group_by, &rows[i]);
        if !contains_text(&keys, &k) {
            proof { assert(strings(keys@.push(k)) =~= strings(keys@).push(k@)); }
            keys.push(k);
        }
        i = i + 1;
    }
    proof { assert(rv.take(rows@.len() as int) =~= rv); }
    let ghost ks = strings(keys@);
    let mut out: Vec<QueryRow> = Vec::new();
    let mut g: usize = 0;
    while g < keys.len()
        invariant
            gb == strings(group_by@),
            rv == rows_view(rows@),
            ks == strings(keys@),
            ks == group_keys(gb, rv),
            g <= keys@.len(),
            rows_view(out@) == grouped_sums(gb, strings(selected_fields@), rv).take(g as int),
        decreases keys@.len() - g,
    {
        proof { lemma_key_has_members(gb, rv, g as int); }
        let group = members_of(group_by, rows, &keys[g]);
        let base = copy_row(&group[0]);
        let fields = fields_of(selected_fields, &group);
        let row = QueryRow { tags: base.tags, fields, timestamp: base.timestamp };
        proof {
            assert(rows_view(group@)[0] == group@[0]@);
            assert(row@.tags == rows_view(group@)[0].tags);
            let want = grouped_sums(gb, strings(selected_fields@), rv);
            assert(want[g as int] == row@);
            assert(want.len() == ks.len());
            assert(rows_view(out@.push(row)) =~= rows_view(out@).push(row@));
            assert(want.take(g + 1) =~= want.take(g as int).push(want[g as int]));
        }
        out.push(row);
        g = g + 1;
    }
    proof { assert(grouped_sums(gb, strings(selected_fields@), rv).take(keys@.len() as int) =~= grouped_sums(gb, strings(selected_fields@), rv)); }
    out
}

/// Every key of a group has at least one member.
proof fn lemma_key_has_members(gb: Seq<Seq<char>>, rows: Seq<QueryRowView>, g: int)
    requires
        0 <= g < group_keys(gb, rows).len(),
    ensures
        members(gb, rows, group_keys(gb, rows)[g]).len() > 0,
    decreases rows.len(),
{
    if rows.len() > 0 {
        let k = group_keys(gb, rows.drop_last());
        let key = group_keys(gb, rows)[g];
        if g < k.len() {
            assert(group_keys(gb, rows)[g] == k[g]);
            lemma_key_has_members(gb, rows.drop_last(), g);
        }
    }
}

fn members_of(group_by: &Vec<String>, rows: &Vec<QueryRow>, key: &String) -> (r: Vec<QueryRow>)
    ensures
        rows_view(r@) == members(strings(group_by@), rows_view(rows@), key@),
{
    let ghost rv = rows_view(rows@);
    let mut r: Vec<QueryRow> = Vec::new();
    let mut i: usize = 0;
    while i < rows.len()
        invariant
            rv == rows_view(rows@),
            i <= rows@.len(),
            rows_view(r@) == members(strings(group_by@), rv.take(i as int), key@),
        decreases rows@.len() - i,
    {
        proof { assert(rv.take(i + 1).drop_last() =~= rv.take(i as int)); }
        let k = key_of(group_by, &rows[i]);
        if str_eq(k.as_str(), key.as_str()) {
            let c = copy_row(&rows[i]);
            proof { assert(rows_view(r@.push(c)) =~= rows_view(r@).push(c@)); }
            r.push(c);
        }
        i = i + 1;
    }
    proof { assert(rv.take(rows@.len() as int) =~= rv); }
    r
}

fn copy_value(v: &QueryValue) -> (r: QueryValue)
    ensures
        r@ == v@,
{
    match v {
        QueryValue::Integer(x) => QueryValue::Integer(*x),
        QueryValue::Float(b) => QueryValue::Float(*b),
        QueryValue::String(s) => QueryValue::String(s.clone()),
        QueryValue::Boolean(b) => QueryValue::Boolean(*b),
        QueryValue::Unsigned(u) => QueryValue::Unsigned(*u),
    }
}

fn copy_row(row: &QueryRow) -> (r: QueryRow)
    ensures
        r@ == row@,
{
    let mut tags: Vec<(String, String)> = Vec::new();
    let mut i: usize = 0;
    while i < row.tags.len()
        invariant
            i <= row.tags@.len(),
            tags@.len() == i,
            forall|k: int| 0 <= k < i ==> #[trigger] tags@[k].0@ == row.tags@[k].0@ && tags@[k].1@ == row.tags@[k].1@,
        decreases row.tags@.len() - i,
    {
        tags.push((row.tags[i].0.clone(), row.tags[i].1.clone()));
        i = i + 1;
    }
    let mut fields: Vec<(String, QueryValue)> = Vec::new();
    let mut j: usize = 0;
    while j < row.fields.len()
        invariant
            j <= row.fields@.len(),
            fields@.len() == j,
            forall|k: int| 0 <= k < j ==> #[trigger] fields@[k].0@ == row.fields@[k].0@ && fields@[k].1@ == row.fields@[k].1@,
        decreases row.fields@.len() - j,
    {
        fields.push((row.fields[j].0.clone(), copy_value(&row.fields[j].1)));
        j = j + 1;
    }
    let r = QueryRow { tags, fields, timestamp: row.timestamp };
    proof {
        assert(r@.tags =~= row@.tags);
        assert(r@.fields =~= row@.fields);
    }
    r
}

fn sum_of(group: &Vec<QueryRow>, name: &str) -> (r: (bool, i64))
    ensures
        r == int_sum(rows_view(group@), name@),
{
    let ghost gv = rows_view(group@);
    let mut any = false;
    let mut sum: i64 = 0;
    let mut i: usize = 0;
    while i < group.len()
        invariant
            gv == rows_view(group@),
            i <= group@.len(),
            (any, sum) == int_sum(gv.take(i as int), name@),
        decreases group@.len() - i,
    {
        proof { assert(gv.take(i + 1).drop_last() =~= gv.take(i as int)); }
        match field_int_of(&group[i].fields, name) {
            Some(v) => {
                any = true;
                sum = sum.wrapping_add(v);
            },
            None => {},
        }
        i = i + 1;
    }
    proof { assert(gv.take(group@.len() as int) =~= gv); }
    (any, sum)
}

fn fields_of(selected: &Vec<String>, group: &Vec<QueryRow>) -> (r: Vec<(String, QueryValue)>)
    requires
        group@.len() > 0,
    ensures
        r@.map_values(|f: (String, QueryValue)| (f.0@, f.1@)) == group_fields(strings(selected@), rows_view(group@)),
{
    proof { reveal_strlit("_time"); }
    let ghost sv = strings(selected@);
    let mut out: Vec<(String, QueryValue)> = Vec::new();
    let mut i: usize = 0;
    while i < selected.len()
        invariant
            sv == strings(selected@),
            group@.len() > 0,
            i <= selected@.len(),
            out@.map_values(|f: (String, QueryValue)| (f.0@, f.1@)) == group_fields(sv.take(i as int), rows_view(group@)),
        decreases selected@.len() - i,
    {
        proof { assert(sv.take(i + 1).drop_last() =~= sv.take(i as int)); }
        let f = selected[i].as_str();
        if str_eq(f, "_time") {
            let e = (selected[i].clone(), QueryValue::Integer(group[0].timestamp));
            proof {
                assert(out@.push(e).map_values(|f: (String, QueryValue)| (f.0@, f.1@))
                    =~= out@.map_values(|f: (String, QueryValue)| (f.0@, f.1@)).push((e.0@, e.1@)));
            }
            out.push(e);
        } else {
            let (any, sum) = sum_of(group, f);
            if any {
                let e = (selected[i].clone(), QueryValue::Integer(sum));
                proof {
                    assert(out@.push(e).map_values(|f: (String, QueryValue)| (f.0@, f.1@))
                        =~= out@.map_values(|f: (String, QueryValue)| (f.0@, f.1@)).push((e.0@, e.1@)));
                }
                out.push(e);
            }
        }
        i = i + 1;
    }
    proof { assert(sv.take(selected@.len() as int) =~= sv); }
    out
}
} // verus!
