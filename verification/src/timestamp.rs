//! Points in time as whole seconds since the Unix epoch and nanoseconds within the
//! second; clock, calendar and formatting are `chrono`'s.

use vstd::prelude::*;

verus! {

/// The CBOR that `ciborium` writes for the `chrono::DateTime<Utc>` at `secs` and `nanos`.
pub uninterp spec fn spec_cbor_timestamp(secs: i64, nanos: u32) -> Seq<u8>;

/// The whole seconds of `chrono`'s difference between two instants, truncated toward zero.
pub uninterp spec fn spec_seconds_between(
    start_secs: i64,
    start_nanos: u32,
    end_secs: i64,
    end_nanos: u32,
) -> i64;

/// Whether `chrono`'s difference `now - then` between the two instants is shorter than
/// `limit_secs` seconds.
pub uninterp spec fn spec_younger_than(
    now_secs: i64,
    now_nanos: u32,
    then_secs: i64,
    then_nanos: u32,
    limit_secs: i64,
) -> bool;

/// `chrono`: whether `now - then < TimeDelta::seconds(limit_secs)` for the two instants;
/// an instant out of `chrono`'s range gives `false`.
#[verifier::external_body]
pub(crate) fn younger_than(now: Timestamp, then: Timestamp, limit_secs: i64) -> (r: bool)
    requires
        0 <= limit_secs <= 1_000_000_000,
    ensures
        r == spec_younger_than(now.secs, now.nanos, then.secs, then.nanos, limit_secs),
{
    match (
        chrono::DateTime::from_timestamp(now.secs, now.nanos),
        chrono::DateTime::from_timestamp(then.secs, then.nanos),
    ) {
        (Some(n), Some(t)) => n - t < chrono::TimeDelta::seconds(limit_secs),
        _ => false,
    }
}

/// An instant in UTC.
#[derive(Clone, Copy, Debug)]
pub struct Timestamp {
    /// Seconds since 1970-01-01T00:00:00Z.
    pub secs: i64,
    /// Nanoseconds within the second (above 999,999,999 only within a leap second).
    pub nanos: u32,
}

/// Whether `a` lies strictly before `b`, the order of `chrono::DateTime<Utc>`.
pub open spec fn spec_before(a: Timestamp, b: Timestamp) -> bool {
    a.secs < b.secs || (a.secs == b.secs && a.nanos < b.nanos)
}

/// `chrono::Utc::now`, as seconds and nanoseconds. Nothing is promised of the value.
#[verifier::external_body]
fn utc_now() -> (r: Timestamp) {
    let now = chrono::Utc::now();
    Timestamp { secs: now.timestamp(), nanos: now.timestamp_subsec_nanos() }
}

/// `ciborium::into_writer` on the `chrono::DateTime<Utc>` at `secs` and `nanos`;
/// an instant out of `chrono`'s range gives an empty result.
#[verifier::external_body]
pub(crate) fn cbor_timestamp(secs: i64, nanos: u32) -> (r: Vec<u8>)
    ensures
        r@ == spec_cbor_timestamp(secs, nanos),
{
    match chrono::DateTime::from_timestamp(secs, nanos) {
        Some(t) => {
            let mut out = Vec::new();
            match ciborium::into_writer(&t, &mut out) {
                Ok(()) => out,
                Err(_) => Vec::new(),
            }
        },
        None => Vec::new(),
    }
}

/// `chrono`'s `end - start` in whole seconds (`TimeDelta::num_seconds`); an instant
/// out of `chrono`'s range gives zero.
#[verifier::external_body]
pub(crate) fn seconds_between(start: Timestamp, end: Timestamp) -> (r: i64)
    ensures
        r == spec_seconds_between(start.secs, start.nanos, end.secs, end.nanos),
{
    match (
        chrono::DateTime::from_timestamp(start.secs, start.nanos),
        chrono::DateTime::from_timestamp(end.secs, end.nanos),
    ) {
        (Some(s), Some(e)) => (e - s).num_seconds(),
        _ => 0,
    }
}

impl Timestamp {
    /// The current time.
    pub fn now() -> (r: Timestamp) {
        utc_now()
    }

    /// Whether `self` lies strictly before `other`.
    pub fn before(&self, other: &Timestamp) -> (r: bool)
        ensures
            r == spec_before(*self, *other),
    {
        self.secs < other.secs || (self.secs == other.secs && self.nanos < other.nanos)
    }
}

} // verus!
