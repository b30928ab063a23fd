//! Points in time, and the second-resolution stamp that names a backup.

use vstd::prelude::*;

verus! {

/// A UTC instant: whole seconds since 1970-01-01T00:00:00Z and the nanoseconds
/// past that second. Instants are ordered by seconds, then by nanoseconds.
#[derive(Clone, Copy, Debug, PartialEq, Eq, Structural)]
pub struct Timestamp {
    pub secs: i64,
    pub nanos: u32,
}

/// First second of the year 0000, in seconds since the epoch.
pub const STAMP_MIN_SECS: i64 = -62_167_219_200;

/// Last second of the year 9999, in seconds since the epoch.
pub const STAMP_MAX_SECS: i64 = 253_402_300_799;

/// Nanoseconds in one second.
pub const NANOS_PER_SEC: u32 = 1_000_000_000;

impl Timestamp {
    /// `self` lies strictly before `other`.
    pub open spec fn before(self, other: Timestamp) -> bool {
        self.secs < other.secs || (self.secs == other.secs && self.nanos < other.nanos)
    }

    /// `self` lies at or after `other`.
    pub open spec fn at_or_after(self, other: Timestamp) -> bool {
        !self.before(other)
    }

    /// The instant has a four-digit year and no leap-second fraction, so a
    /// stamp of the form `YYYYMMDD_HHMMSS` exists for it.
    pub open spec fn nameable(self) -> bool {
        STAMP_MIN_SECS <= self.secs <= STAMP_MAX_SECS && self.nanos < NANOS_PER_SEC
    }

    pub fn new(secs: i64, nanos: u32) -> (t: Timestamp)
        ensures
            t.secs == secs,
            t.nanos == nanos,
    {
        Timestamp { secs, nanos }
    }

    /// Whether `self` lies strictly before `other`.
    pub fn is_before(&self, other: &Timestamp) -> (yes: bool)
        ensures
            yes == self.before(*other),
    {
        self.secs < other.secs || (self.secs == other.secs && self.nanos < other.nanos)
    }

    /// Whether a backup can be named after this instant.
    pub fn is_nameable(&self) -> (yes: bool)
        ensures
            yes == self.nameable(),
    {
        STAMP_MIN_SECS <= self.secs && self.secs <= STAMP_MAX_SECS && self.nanos < NANOS_PER_SEC
    }
}

/// The text that chrono's `%Y%m%d_%H%M%S` format gives for the UTC instant
/// `secs` seconds and `nanos` nanoseconds after the epoch, or `None` where
/// chrono has no date-time for that pair.
pub uninterp spec fn utc_stamp(secs: int, nanos: int) -> Option<Seq<char>>;

/// Calls `chrono::DateTime::from_timestamp` and formats its result with
/// `DateTime::format("%Y%m%d_%H%M%S")`.
///
/// Trusted: the result is the text named by [`utc_stamp`]; and chrono has a
/// date-time for every second of the years 0000 to 9999 with a fraction below
/// one second, which is well inside the range that `from_timestamp` accepts.
#[verifier::external_body]
fn format_utc_stamp(secs: i64, nanos: u32) -> (out: Option<String>)
    ensures
        match out {
            Some(s) => utc_stamp(secs as int, nanos as int) == Some(s@),
            None => utc_stamp(secs as int, nanos as int).is_none(),
        },
        (STAMP_MIN_SECS <= secs <= STAMP_MAX_SECS && nanos < NANOS_PER_SEC) ==> out.is_some(),
{
    let at = chrono::DateTime::from_timestamp(secs, nanos)?;
    Some(at.format("%Y%m%d_%H%M%S").to_string())
}

/// The stamp of a nameable instant, as the part of a backup's name that
/// follows the prefix.
pub open spec fn stamp_of(t: Timestamp) -> Seq<char>
    recommends
        t.nameable(),
{
    utc_stamp(t.secs as int, t.nanos as int).unwrap()
}

/// The second-resolution stamp `YYYYMMDD_HHMMSS` of `t`.
pub fn stamp(t: Timestamp) -> (out: String)
    requires
        t.nameable(),
    ensures
        out@ == stamp_of(t),
        utc_stamp(t.secs as int, t.nanos as int) == Some(out@),
{
    match format_utc_stamp(t.secs, t.nanos) {
        Some(s) => s,
        None => String::new(),
    }
}

} // verus!
