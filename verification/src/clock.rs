//! Points in time, and the one call that reads the clock.
use vstd::prelude::*;

verus! {

/// Nanoseconds in one second.
pub const NANOS_PER_SEC: i128 = 1_000_000_000;

/// A point in time: whole seconds since 1970-01-01 00:00:00 UTC, and the
/// nanoseconds since that second began. Points are ordered by the
/// nanoseconds that they lie after the epoch.
#[derive(Clone, Copy, Debug, PartialEq, Eq, Structural)]
pub struct Timestamp {
    pub secs: i64,
    pub nanos: u32,
}

impl Timestamp {
    /// The point in time as nanoseconds since the epoch.
    pub open spec fn instant(self) -> int {
        self.secs * NANOS_PER_SEC + self.nanos
    }

    /// Whether this point lies within the last `seconds` seconds before
    /// `now`: whether it is later than `now` less `seconds`.
    pub open spec fn is_within(self, now: Timestamp, seconds: int) -> bool {
        self.instant() > now.instant() - seconds * NANOS_PER_SEC
    }

    /// The point `nanos` nanoseconds after the second `secs`.
    pub fn new(secs: i64, nanos: u32) -> (t: Timestamp)
        ensures
            t.secs == secs,
            t.nanos == nanos,
    {
        Timestamp { secs, nanos }
    }

    /// Whether this point is later than `now` less `seconds`.
    pub fn within(&self, now: Timestamp, seconds: i64) -> (b: bool)
        ensures
            b == self.is_within(now, seconds as int),
    {
        let this: i128 = (self.secs as i128) * NANOS_PER_SEC + (self.nanos as i128);
        let bound: i128 = (now.secs as i128) * NANOS_PER_SEC + (now.nanos as i128) - (
        seconds as i128) * NANOS_PER_SEC;
        this > bound
    }
}

/// The current time, from `chrono::Utc::now`, as the seconds and nanoseconds
/// that `DateTime::timestamp` and `DateTime::timestamp_subsec_nanos` give.
/// Nothing is claimed of the value: it is whatever the system clock says.
/// `Utc::now` itself gives up where that clock stands before 1970.
#[verifier::external_body]
pub(crate) fn utc_now() -> (now: Timestamp) {
    let t = chrono::Utc::now();
    Timestamp { secs: t.timestamp(), nanos: t.timestamp_subsec_nanos() }
}

} // verus!
