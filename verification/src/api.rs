//! Request and response records of the HTTP interface, and the request
//! counters of a running server.

use vstd::prelude::*;
use std::time::SystemTime;
use crate::clock::{system_now, seconds_since};
use crate::text::push_str;

verus! {

/// The version of the engine that servers report.
pub const ENGINE_VERSION: &'static str = "0.1.0";

/// The outcome of a write.
#[derive(Debug, Clone)]
pub struct WriteResponse {
    pub success: bool,
    pub rows_written: usize,
    pub error: Option<String>,
}

impl WriteResponse {
    /// A successful write of the given number of rows.
    pub fn success(rows_written: usize) -> (r: Self)
        ensures
            r.success,
            r.rows_written == rows_written,
            r.error is None,
    {
        WriteResponse { success: true, rows_written, error: None }
    }

    /// A failed write with a message.
    pub fn error(msg: String) -> (r: Self)
        ensures
            !r.success,
            r.rows_written == 0,
            r.error == Some(msg),
    {
        WriteResponse { success: false, rows_written: 0, error: Some(msg) }
    }
}

/// A query: its database and table, an optional condition and row limit.
#[derive(Debug, Clone)]
pub struct QueryRequest {
    pub database: String,
    pub table: String,
    pub condition: Option<String>,
    pub limit: Option<usize>,
}

/// A request to create a database.
#[derive(Debug, Clone)]
pub struct CreateDatabaseRequest {
    pub name: String,
    pub retention_policy: Option<String>,
}

/// The outcome of creating a database.
#[derive(Debug, Clone)]
pub struct CreateDatabaseResponse {
    pub success: bool,
    pub error: Option<String>,
}

impl CreateDatabaseResponse {
    /// A database was created.
    pub fn success() -> (r: Self)
        ensures
            r.success,
            r.error is None,
    {
        CreateDatabaseResponse { success: true, error: None }
    }

    /// Creating the database failed, with a message.
    pub fn error(msg: String) -> (r: Self)
        ensures
            !r.success,
            r.error == Some(msg),
    {
        CreateDatabaseResponse { success: false, error: Some(msg) }
    }
}

/// The health report of a server.
#[derive(Debug, Clone)]
pub struct HealthResponse {
    pub status: String,
    pub version: String,
    pub uptime_seconds: u64,
}

impl HealthResponse {
    /// A healthy server of the given version and uptime.
    pub fn healthy(version: &str, uptime: u64) -> (r: Self)
        ensures
            r.status@ == "ok"@,
            r.version@ == version@,
            r.uptime_seconds == uptime,
    {
        HealthResponse { status: String::from_str("ok"), version: version.to_owned(), uptime_seconds: uptime }
    }

    /// An unhealthy server: "unhealthy: " and the reason, this engine's
    /// version, no uptime.
    pub fn unhealthy(reason: &str) -> (r: Self)
        ensures
            r.status@ == "unhealthy: "@ + reason@,
            r.version@ == ENGINE_VERSION@,
            r.uptime_seconds == 0,
    {
        let mut status = String::new();
        push_str(&mut status, "unhealthy: ");
        push_str(&mut status, reason);
        proof { assert(Seq::<char>::empty() + "unhealthy: "@ =~= "unhealthy: "@); }
        HealthResponse { status, version: ENGINE_VERSION.to_owned(), uptime_seconds: 0 }
    }
}

/// Storage totals that a server reports.
#[derive(Debug, Clone)]
pub struct StorageStatsResponse {
    pub database_count: usize,
    pub table_count: usize,
    pub total_rows: u64,
    pub memtable_size_bytes: u64,
    pub wal_size_bytes: u64,
}

/// The version, start time and request counters of a server.
pub struct ApiState {
    version: String,
    start_time: SystemTime,
    requests_received: u64,
    requests_success: u64,
    requests_failed: u64,
}

impl ApiState {
    /// The counters: received, successful and failed requests.
    pub closed spec fn counters(&self) -> (u64, u64, u64) {
        (self.requests_received, self.requests_success, self.requests_failed)
    }

    /// The version the server reports.
    pub closed spec fn spec_version(&self) -> Seq<char> {
        self.version@
    }

    /// A state started now, with this engine's version and no requests.
    pub fn new() -> (r: Self)
        ensures
            r.counters() == (0u64, 0u64, 0u64),
            r.spec_version() == ENGINE_VERSION@,
    {
        ApiState {
            version: ENGINE_VERSION.to_owned(),
            start_time: system_now(),
            requests_received: 0,
            requests_success: 0,
            requests_failed: 0,
        }
    }

    /// The version the server reports.
    pub fn version(&self) -> (r: &str)
        ensures
            r@ == self.spec_version(),
    {
        self.version.as_str()
    }

    /// Whole seconds since the state was made; zero if the clock went back.
    pub fn uptime_seconds(&self) -> u64 {
        seconds_since(&self.start_time)
    }

    /// Counts a request, as successful or failed.
    pub fn record_request(&mut self, success: bool)
        requires
            old(self).counters().0 < u64::MAX,
            success ==> old(self).counters().1 < u64::MAX,
            !success ==> old(self).counters().2 < u64::MAX,
        ensures
            final(self).counters() == recorded(old(self).counters(), success),
            final(self).spec_version() == old(self).spec_version(),
    {
        self.requests_received = self.requests_received + 1;
        if success {
            self.requests_success = self.requests_success + 1;
        } else {
            self.requests_failed = self.requests_failed + 1;
        }
    }

    /// The counters: received, successful and failed requests.
    pub fn stats(&self) -> (r: (u64, u64, u64))
        ensures
            r == self.counters(),
    {
        (self.requests_received, self.requests_success, self.requests_failed)
    }
}

impl Default for ApiState {
    fn default() -> (r: Self)
        ensures
            r.counters() == (0u64, 0u64, 0u64),
            r.spec_version() == ENGINE_VERSION@,
    {
        Self::new()
    }
}

/// The counters after one more request: received grows by one, and so
/// does the successful or the failed count.
pub open spec fn recorded(c: (u64, u64, u64), success: bool) -> (u64, u64, u64) {
    if success {
        ((c.0 + 1) as u64, (c.1 + 1) as u64, c.2)
    } else {
        ((c.0 + 1) as u64, c.1, (c.2 + 1) as u64)
    }
}

/// The counters of a fresh state after requests with these outcomes, in
/// order.
pub open spec fn counters_after(outcomes: Seq<bool>) -> (u64, u64, u64)
    decreases outcomes.len(),
{
    if outcomes.len() == 0 {
        (0u64, 0u64, 0u64)
    } else {
        recorded(counters_after(outcomes.drop_last()), outcomes.last())
    }
}

/// How many of the outcomes are successes.
pub open spec fn successes(outcomes: Seq<bool>) -> nat
    decreases outcomes.len(),
{
    if outcomes.len() == 0 {
        0
    } else {
        successes(outcomes.drop_last()) + if outcomes.last() { 1nat } else { 0nat }
    }
}

/// From a fresh state, after requests recorded in any order, the received
/// count is the number of requests, the successful count the number of
/// successes and the failed count the rest: received is always the sum of
/// the other two.
pub proof fn law_request_counts_add_up(outcomes: Seq<bool>)
    requires
        outcomes.len() < u64::MAX,
    ensures
        counters_after(outcomes) == (outcomes.len() as u64, successes(outcomes) as u64,
            (outcomes.len() - successes(outcomes)) as u64),
        counters_after(outcomes).0 == counters_after(outcomes).1 + counters_after(outcomes).2,
    decreases outcomes.len(),
{
    if outcomes.len() > 0 {
        law_request_counts_add_up(outcomes.drop_last());
        lemma_successes_bound(outcomes.drop_last());
    }
}

proof fn lemma_successes_bound(outcomes: Seq<bool>)
    ensures
        successes(outcomes) <= outcomes.len(),
    decreases outcomes.len(),
{
    if outcomes.len() > 0 {
        lemma_successes_bound(outcomes.drop_last());
    }
}

} // verus!
