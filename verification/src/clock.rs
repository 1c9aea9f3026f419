//! Readings of the wall clock and of a monotonic clock. Nothing is promised
//! of their values: they depend on the moment of the call.

use vstd::prelude::*;
use std::time::{Duration, Instant, SystemTime, UNIX_EPOCH};

verus! {

#[verifier::external_type_specification]
#[verifier::external_body]
pub struct ExInstant(Instant);

#[verifier::external_type_specification]
#[verifier::external_body]
pub struct ExSystemTime(SystemTime);

/// `Instant::clone`: an `Instant` is `Copy`, so its clone is the same value.
pub assume_specification[ <std::time::Instant as std::clone::Clone>::clone ](i: &Instant) -> (r: Instant)
    ensures
        r == *i,
;

/// `Duration::clone`: a `Duration` is `Copy`, so its clone is the same value.
pub assume_specification[ <std::time::Duration as std::clone::Clone>::clone ](d: &Duration) -> (r: Duration)
    ensures
        r == *d,
;

/// `SystemTime::now().duration_since(UNIX_EPOCH)` in nanoseconds, or `None`
/// when the system clock reads earlier than the epoch.
#[verifier::external_body]
pub fn unix_time_nanos() -> Option<u128> {
    SystemTime::now().duration_since(UNIX_EPOCH).ok().map(|d| d.as_nanos())
}

/// `Instant::now()`: a reading of the monotonic clock.
#[verifier::external_body]
pub fn monotonic_now() -> Instant {
    Instant::now()
}

/// `Instant::elapsed` in nanoseconds: the time that has passed since
/// `origin` was read.
#[verifier::external_body]
pub fn elapsed_nanos(origin: &Instant) -> u128 {
    origin.elapsed().as_nanos()
}

/// The nanoseconds that have passed since `origin` was read, saturated to
/// `u64`.
pub fn nanos_since(origin: &Instant) -> u64 {
    let n = elapsed_nanos(origin);
    if n > u64::MAX as u128 { u64::MAX } else { n as u64 }
}

/// `SystemTime::now()`: a reading of the wall clock.
#[verifier::external_body]
pub fn system_now() -> SystemTime {
    SystemTime::now()
}

/// `SystemTime::now().duration_since(start)` in whole seconds, or `None`
/// when the clock reads earlier than `start`.
#[verifier::external_body]
pub fn seconds_after(start: &SystemTime) -> Option<u64> {
    SystemTime::now().duration_since(*start).ok().map(|d| d.as_secs())
}

/// Whole seconds from `start` to now by the wall clock, zero when the clock
/// reads earlier than `start`.
pub fn seconds_since(start: &SystemTime) -> u64 {
    match seconds_after(start) {
        Some(s) => s,
        None => 0,
    }
}

/// `Instant::checked_add`: the instant a duration after `start`, or `None`
/// when the clock cannot represent it.
#[verifier::external_body]
pub fn instant_after(start: &Instant, d: Duration) -> Option<Instant> {
    start.checked_add(d)
}

/// The duration that `Instant::duration_since` gives from `earlier` to
/// `later`.
pub uninterp spec fn instant_gap(later: Instant, earlier: Instant) -> Duration;

/// `Instant::duration_since`: the time from `earlier` to `later`, zero when
/// `later` is the earlier of the two.
#[verifier::external_body]
pub fn duration_between(later: &Instant, earlier: &Instant) -> (d: Duration)
    ensures
        d == instant_gap(*later, *earlier),
{
    later.duration_since(*earlier)
}

/// The length of a duration in nanoseconds, as `Duration::as_nanos`
/// gives it.
pub uninterp spec fn duration_total_nanos(d: Duration) -> u128;

/// `Duration::as_nanos`: the whole duration in nanoseconds.
#[verifier::external_body]
pub fn duration_nanos(d: &Duration) -> (r: u128)
    ensures
        r == duration_total_nanos(*d),
{
    d.as_nanos()
}

/// The duration that `Duration::from_secs` makes of a number of seconds.
pub uninterp spec fn secs_duration(secs: u64) -> Duration;

/// `Duration::from_secs`.
#[verifier::external_body]
pub fn duration_from_secs(secs: u64) -> (d: Duration)
    ensures
        d == secs_duration(secs),
{
    Duration::from_secs(secs)
}

/// Whole seconds of a reading in nanoseconds since the epoch, capped at
/// `i64::MAX`; zero where there is no reading.
pub open spec fn seconds_of_nanos(n: Option<u128>) -> i64 {
    match n {
        Some(n) => if n / 1_000_000_000 > i64::MAX { i64::MAX } else { (n / 1_000_000_000) as i64 },
        None => 0,
    }
}

/// Whole seconds of a reading in nanoseconds since the epoch, capped at
/// `i64::MAX`; zero where there is no reading.
pub fn whole_seconds(n: Option<u128>) -> (r: i64)
    ensures
        r == seconds_of_nanos(n),
{
    match n {
        Some(n) => {
            let s = n / 1_000_000_000;
            if s > i64::MAX as u128 { i64::MAX } else { s as i64 }
        },
        None => 0,
    }
}

/// The wall clock in whole seconds since the epoch; zero when the clock
/// reads earlier than the epoch.
pub fn unix_time_seconds() -> (r: i64)
    ensures
        r >= 0,
{
    whole_seconds(unix_time_nanos())
}

/// Nanoseconds of a reading since the epoch as an `i64`; zero where there
/// is no reading or it does not fit.
pub open spec fn nanos_of_reading(n: Option<u128>) -> i64 {
    match n {
        Some(n) => if n > i64::MAX { 0 } else { n as i64 },
        None => 0,
    }
}

/// Nanoseconds of a reading since the epoch as an `i64`; zero where there
/// is no reading or it does not fit.
pub fn reading_nanos(n: Option<u128>) -> (r: i64)
    ensures
        r == nanos_of_reading(n),
{
    match n {
        Some(n) => if n > i64::MAX as u128 { 0 } else { n as i64 },
        None => 0,
    }
}

/// The current UTC time in whole seconds since the epoch; zero when the
/// clock reads earlier than the epoch.
pub fn utc_now_seconds() -> (r: i64)
    ensures
        r >= 0,
{
    whole_seconds(unix_time_nanos())
}

/// The current UTC time in nanoseconds since the epoch; zero when the clock
/// reads earlier than the epoch or the value does not fit `i64`.
pub fn utc_now_nanos() -> (r: i64)
    ensures
        r >= 0,
{
    reading_nanos(unix_time_nanos())
}

/// The wall clock in nanoseconds since the epoch, cast to `i64` as the
/// engine stores it; zero when the clock reads earlier than the epoch.
pub fn unix_time_nanos_i64() -> i64 {
    match unix_time_nanos() {
        Some(n) => n as i64,
        None => 0,
    }
}

} // verus!
