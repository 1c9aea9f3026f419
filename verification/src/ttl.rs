//! Retention by age: a default time-to-live and one per table, and the
//! decisions that follow from them for timestamps and rows.

use vstd::prelude::*;
use crate::clock::unix_time_seconds;
use crate::downsample::{div_toward_zero, trunc_div};
use crate::keyed::{keyed, keys_unique, lemma_keyed_facts, lemma_keyed_update, lemma_keyed_push, lemma_keyed_absent};
use crate::text::str_eq;

verus! {

/// Nanoseconds in a second.
pub const NANOS_PER_SECOND: i64 = 1_000_000_000;

/// The table under which a time-to-live is kept.
pub open spec fn ttl_key() -> spec_fn((String, u64)) -> Seq<char> {
    |e: (String, u64)| e.0@
}

/// The time-to-live that is kept.
pub open spec fn ttl_val() -> spec_fn((String, u64)) -> u64 {
    |e: (String, u64)| e.1
}

/// Tracks how long the rows of each table are kept. A time-to-live of
/// zero keeps rows for ever.
#[derive(Debug)]
pub struct TtlManager {
    pub default_ttl_seconds: u64,
    table_ttls: Vec<(String, u64)>,
}

/// Whether a timestamp (in nanoseconds) is older than the time-to-live, at
/// the moment `now` (in seconds): its age in whole seconds, the timestamp
/// being cut toward zero to seconds, exceeds the time-to-live read as a
/// signed number. A time-to-live of zero never expires anything.
pub open spec fn expired_at(ttl: u64, timestamp: i64, now: i64) -> bool {
    ttl != 0 && now - trunc_div(timestamp as int, NANOS_PER_SECOND as int) > (ttl as i64) as int
}

/// The expiry threshold at the moment `now`: zero for a time-to-live of
/// zero, else `now` less the time-to-live times 10^9, both in wrapping
/// 64-bit arithmetic.
pub open spec fn threshold_at(ttl: u64, now: i64) -> i64 {
    if ttl == 0 { 0 } else { now.wrapping_sub((ttl as i64).wrapping_mul(NANOS_PER_SECOND)) }
}

/// Whether rows survive the filter: they do when the time-to-live is zero,
/// or when the first of the timestamps (zero when there is none) is past
/// the threshold. The filter keeps all rows or none.
pub open spec fn rows_survive(ttl: u64, timestamps: Seq<i64>, now: i64) -> bool {
    ttl == 0 || (if timestamps.len() > 0 { timestamps[0] } else { 0 }) > threshold_at(ttl, now)
}

impl TtlManager {
    /// The time-to-live of each table that has its own.
    pub closed spec fn ttls(&self) -> Map<Seq<char>, u64> {
        keyed(self.table_ttls@, ttl_key(), ttl_val())
    }

    /// The time-to-live of tables without one of their own.
    pub closed spec fn default_ttl(&self) -> u64 {
        self.default_ttl_seconds
    }

    /// No table is listed twice.
    pub closed spec fn wf(&self) -> bool {
        keys_unique(self.table_ttls@, ttl_key())
    }

    /// The time-to-live that applies to a table: its own, or the default.
    pub open spec fn ttl_of(&self, table: Seq<char>) -> u64 {
        if self.ttls().contains_key(table) { self.ttls()[table] } else { self.default_ttl() }
    }

    /// A manager with a default time-to-live and no table of its own.
    pub fn new(default_ttl_seconds: u64) -> (r: Self)
        ensures
            r.wf(),
            r.default_ttl() == default_ttl_seconds,
            r.ttls() == Map::<Seq<char>, u64>::empty(),
    {
        let r = TtlManager { default_ttl_seconds, table_ttls: Vec::new() };
        assert(r.ttls() =~= Map::<Seq<char>, u64>::empty());
        r
    }

    fn find(&self, table: &str) -> (r: Option<usize>)
        requires
            self.wf(),
        ensures
            match r {
                Some(i) => i < self.table_ttls@.len() && self.table_ttls@[i as int].0@ == table@
                    && self.ttls().contains_key(table@) && self.ttls()[table@] == self.table_ttls@[i as int].1,
                None => !self.ttls().contains_key(table@),
            },
    {
        let mut i: usize = 0;
        while i < self.table_ttls.len()
            invariant
                i <= self.table_ttls@.len(),
                keys_unique(self.table_ttls@, ttl_key()),
                forall|j: int| 0 <= j < i ==> self.table_ttls@[j].0@ != table@,
            decreases self.table_ttls@.len() - i,
        {
            if str_eq(self.table_ttls[i].0.as_str(), table) {
                proof {
                    lemma_keyed_facts(self.table_ttls@, ttl_key(), ttl_val());
                    assert(ttl_key()(self.table_ttls@[i as int]) == table@);
                }
                return Some(i);
            }
            i = i + 1;
        }
        proof { lemma_keyed_absent(self.table_ttls@, ttl_key(), ttl_val(), table@); }
        None
    }

    /// Gives a table its own time-to-live, replacing any it had.
    pub fn set_table_ttl(&mut self, table: &str, ttl_seconds: u64)
        requires
            old(self).wf(),
        ensures
            final(self).wf(),
            final(self).default_ttl() == old(self).default_ttl(),
            final(self).ttls() == old(self).ttls().insert(table@, ttl_seconds),
    {
        let entry = (table.to_owned(), ttl_seconds);
        match self.find(table) {
            Some(i) => {
                proof { lemma_keyed_update(self.table_ttls@, ttl_key(), ttl_val(), i as int, entry); }
                self.table_ttls.set(i, entry);
            },
            None => {
                proof { lemma_keyed_push(self.table_ttls@, ttl_key(), ttl_val(), entry); }
                self.table_ttls.push(entry);
            },
        }
    }

    /// The time-to-live that applies to a table.
    pub fn get_ttl_seconds(&self, table: &str) -> (r: u64)
        requires
            self.wf(),
        ensures
            r == self.ttl_of(table@),
    {
        match self.find(table) {
            Some(i) => self.table_ttls[i].1,
            None => self.default_ttl_seconds,
        }
    }

    /// Whether a timestamp of the table has expired at the moment `now`
    /// (seconds since the epoch).
    pub fn is_expired_at(&self, table: &str, timestamp: i64, now: i64) -> (r: bool)
        requires
            self.wf(),
        ensures
            r == expired_at(self.ttl_of(table@), timestamp, now),
    {
        let ttl = self.get_ttl_seconds(table);
        if ttl == 0 {
            return false;
        }
        let secs = div_toward_zero(timestamp, 1_000_000_000u64);
        let age: i128 = now as i128 - secs as i128;
        age > (ttl as i64) as i128
    }

    /// Whether a timestamp of the table has expired by the wall clock.
    pub fn is_expired(&self, table: &str, timestamp: i64) -> (r: bool)
        requires
            self.wf(),
        ensures
            exists|now: i64| now >= 0 && r == expired_at(self.ttl_of(table@), timestamp, now),
            self.ttl_of(table@) == 0 ==> !r,
    {
        let now = unix_time_seconds();
        self.is_expired_at(table, timestamp, now)
    }

    /// The expiry threshold of the table at the moment `now`.
    pub fn get_expired_threshold_at(&self, table: &str, now: i64) -> (r: i64)
        requires
            self.wf(),
        ensures
            r == threshold_at(self.ttl_of(table@), now),
    {
        let ttl = self.get_ttl_seconds(table);
        if ttl == 0 {
            return 0;
        }
        now.wrapping_sub((ttl as i64).wrapping_mul(NANOS_PER_SECOND))
    }

    /// The expiry threshold of the table by the wall clock.
    pub fn get_expired_threshold(&self, table: &str) -> (r: i64)
        requires
            self.wf(),
        ensures
            exists|now: i64| now >= 0 && r == threshold_at(self.ttl_of(table@), now),
            self.ttl_of(table@) == 0 ==> r == 0,
    {
        let now = unix_time_seconds();
        self.get_expired_threshold_at(table, now)
    }

    /// Drops the table's rows when they have expired at the moment `now`:
    /// all of them go, or none, as the first timestamp decides.
    pub fn filter_expired_rows_at<R>(&self, table: &str, rows: &mut Vec<R>, timestamps: &[i64], now: i64)
        requires
            self.wf(),
        ensures
            final(rows)@ == if rows_survive(self.ttl_of(table@), timestamps@, now) {
                old(rows)@
            } else {
                Seq::<R>::empty()
            },
    {
        let ttl = self.get_ttl_seconds(table);
        if ttl == 0 {
            return;
        }
        let threshold = self.get_expired_threshold_at(table, now);
        let ts = if timestamps.len() > 0 { timestamps[0] } else { 0 };
        if !(ts > threshold) {
            rows.clear();
        }
    }

    /// Drops the table's rows when they have expired by the wall clock.
    pub fn filter_expired_rows<R>(&self, table: &str, rows: &mut Vec<R>, timestamps: &[i64])
        requires
            self.wf(),
        ensures
            exists|now: i64| now >= 0 && final(rows)@ == if rows_survive(self.ttl_of(table@), timestamps@, now) {
                old(rows)@
            } else {
                Seq::<R>::empty()
            },
            self.ttl_of(table@) == 0 ==> final(rows)@ == old(rows)@,
    {
        let now = unix_time_seconds();
        self.filter_expired_rows_at(table, rows, timestamps, now);
    }
}

/// Setting a table's time-to-live is read back for that table and leaves
/// every other table's as it was.
pub proof fn law_ttl_read_back(before: TtlManager, after: TtlManager, table: Seq<char>, ttl: u64, other: Seq<char>)
    requires
        after.default_ttl() == before.default_ttl(),
        after.ttls() == before.ttls().insert(table, ttl),
    ensures
        after.ttl_of(table) == ttl,
        other != table ==> after.ttl_of(other) == before.ttl_of(other),
{
}

/// A time-to-live of zero keeps everything: no timestamp expires and rows
/// survive, whatever the moment.
pub proof fn law_zero_ttl_keeps_everything(timestamp: i64, timestamps: Seq<i64>, now: i64)
    ensures
        !expired_at(0, timestamp, now),
        rows_survive(0, timestamps, now),
        threshold_at(0, now) == 0,
{
}

} // verus!
