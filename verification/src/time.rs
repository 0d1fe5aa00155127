use vstd::prelude::*;

verus! {

/// Seconds in one calendar day.
pub const SECS_PER_DAY: u64 = 86400;

/// Seconds in one minute.
pub const SECS_PER_MINUTE: u64 = 60;

/// Largest second count the library works with. Any date a caller can
/// represent lies far below it, and the bound keeps every sum and cast the
/// library performs inside `u64` and `i64`.
pub const MAX_TIMESTAMP_SECS: u64 = 1_000_000_000_000_000;

/// A point in time: whole seconds since the start of the common era, as a
/// naive (timezone-free) clock reads it. Day boundaries fall on multiples of
/// `SECS_PER_DAY`, so two timestamps share a calendar day exactly when their
/// day numbers agree.
#[derive(Clone, Copy, PartialEq, Eq, Structural, Debug)]
pub struct Timestamp {
    pub secs: u64,
}

impl Timestamp {
    /// Bounded enough that the library's arithmetic on seconds, minutes and
    /// days cannot overflow.
    pub open spec fn valid(self) -> bool {
        self.secs <= MAX_TIMESTAMP_SECS
    }

    /// The calendar day this timestamp falls on, counted from the start of
    /// the common era.
    pub open spec fn spec_day(self) -> u64 {
        self.secs / SECS_PER_DAY
    }

    pub fn new(secs: u64) -> (t: Timestamp)
        ensures
            t.secs == secs,
    {
        Timestamp { secs }
    }

    pub fn day(&self) -> (d: u64)
        ensures
            d == self.spec_day(),
    {
        self.secs / SECS_PER_DAY
    }

    /// Whether two timestamps fall on the same calendar day.
    pub fn same_day(&self, other: &Timestamp) -> (r: bool)
        ensures
            r == (self.spec_day() == other.spec_day()),
    {
        self.day() == other.day()
    }
}

} // verus!
