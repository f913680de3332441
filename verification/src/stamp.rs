use vstd::prelude::*;

use chrono::{DateTime, Utc};
use std::time::{SystemTime, UNIX_EPOCH};

use crate::error::CoreError;

verus! {

/// A point in time: whole seconds since 1970-01-01 00:00:00 UTC and the
/// nanoseconds within that second (a leap second is written as 1e9 and more).
#[derive(Clone, Copy, Debug, PartialEq, Eq, Structural)]
pub struct Timestamp {
    pub secs: i64,
    pub nanos: u32,
}

/// The earliest second that `chrono` can represent (January 1st of year -262143).
pub const MIN_SECS: i64 = -8334601228800i64;

/// The last second that `chrono` can represent (December 31st of year 262142).
pub const MAX_SECS: i64 = 8210266876799i64;

/// `secs` and `nanos` name an instant that `chrono::DateTime::from_timestamp` accepts.
pub open spec fn valid_instant(secs: i64, nanos: u32) -> bool {
    &&& MIN_SECS <= secs <= MAX_SECS
    &&& (nanos < 1_000_000_000 || (nanos < 2_000_000_000 && secs % 60 == 59))
}

impl Timestamp {
    /// The timestamp names an instant that `chrono` can represent.
    pub open spec fn valid(self) -> bool {
        valid_instant(self.secs, self.nanos)
    }

    /// Whether the timestamp names an instant that `chrono` can represent.
    pub fn is_valid(&self) -> (b: bool)
        ensures
            b == self.valid(),
    {
        if self.secs < MIN_SECS || self.secs > MAX_SECS {
            return false;
        }
        // MIN_SECS is a whole number of minutes, so the offset from it has the
        // same second within the minute.
        let offset = (self.secs - MIN_SECS) as u64;
        assert(MIN_SECS % 60 == 0);
        assert(offset % 60 == self.secs % 60) by (nonlinear_arith)
            requires
                offset == self.secs - MIN_SECS,
                MIN_SECS % 60 == 0,
                offset >= 0,
        ;
        self.nanos < 1_000_000_000 || (self.nanos < 2_000_000_000 && offset % 60 == 59)
    }
}

/// What `DateTime::<Utc>::to_rfc3339` writes for the instant `(secs, nanos)`.
pub uninterp spec fn rfc3339(secs: i64, nanos: u32) -> Seq<char>;

/// What `DateTime::<Utc>::format(fmt)` writes for the instant `(secs, nanos)`.
pub uninterp spec fn strftime(secs: i64, nanos: u32, fmt: Seq<char>) -> Seq<char>;

/// Calls `DateTime::<Utc>::to_rfc3339` on the instant (built by
/// `DateTime::from_timestamp`, which accepts every valid instant). Claimed: the
/// text is `rfc3339` of the instant, and it holds no line break (`chrono` writes
/// only digits, signs, `-`, `T`, `:`, `.` and the offset); its exact shape is
/// left unsaid.
#[verifier::external_body]
pub(crate) fn format_rfc3339(ts: &Timestamp) -> (r: String)
    requires
        ts.valid(),
    ensures
        r@ == rfc3339(ts.secs, ts.nanos),
        forall|i: int| 0 <= i < r@.len() ==> r@[i] != '\n',
{
    DateTime::from_timestamp(ts.secs, ts.nanos).unwrap().to_rfc3339()
}

/// Calls `DateTime::<Utc>::format` with the format string `fmt` and renders it.
/// Claimed: the text is `strftime` of the instant and `fmt`. Only the two
/// formats that note paths use are admitted, since rendering a format that
/// `chrono` rejects panics.
#[verifier::external_body]
pub(crate) fn format_with(ts: &Timestamp, fmt: &str) -> (r: String)
    requires
        ts.valid(),
        fmt@ == "%Y"@ || fmt@ == "%Y-%m-%d"@,
    ensures
        r@ == strftime(ts.secs, ts.nanos, fmt@),
{
    DateTime::from_timestamp(ts.secs, ts.nanos).unwrap().format(fmt).to_string()
}


/// The instant in RFC 3339, as note files and the index store it.
pub fn stamp_text(ts: &Timestamp) -> (r: String)
    requires
        ts.valid(),
    ensures
        r@ == rfc3339(ts.secs, ts.nanos),
        forall|i: int| 0 <= i < r@.len() ==> r@[i] != '\n',
{
    format_rfc3339(ts)
}

/// What `DateTime::parse_from_rfc3339` gives for the text `s`, as UTC seconds
/// and nanoseconds: `None` where it reports an error.
pub uninterp spec fn rfc3339_parsed(s: Seq<char>) -> Option<(i64, u32)>;

/// Calls `DateTime::parse_from_rfc3339` and converts an accepted time to UTC
/// seconds and nanoseconds (`timestamp`, `timestamp_subsec_nanos`). Claimed:
/// the result is `rfc3339_parsed(s)`, and an accepted time is an instant that
/// `chrono` represents (every `DateTime` is one).
#[verifier::external_body]
fn parse_rfc3339(s: &str) -> (r: Option<Timestamp>)
    ensures
        r matches Some(t) ==> rfc3339_parsed(s@) == Some((t.secs, t.nanos)) && t.valid(),
        r is None ==> rfc3339_parsed(s@) is None,
{
    match DateTime::parse_from_rfc3339(s) {
        Ok(dt) => {
            let u = dt.with_timezone(&Utc);
            Some(Timestamp { secs: u.timestamp(), nanos: u.timestamp_subsec_nanos() })
        },
        Err(_) => None,
    }
}

/// Reads the system clock (`SystemTime::now`) as the time since `UNIX_EPOCH`
/// (`duration_since`), in whole seconds and the nanoseconds within the second.
/// Claimed: the nanoseconds are under one second; `None` comes back when the
/// clock reads a time before 1970. Which time it reads is not stated.
#[verifier::external_body]
fn unix_clock() -> (r: Option<(u64, u32)>)
    ensures
        r matches Some((_, n)) ==> n < 1_000_000_000,
{
    match SystemTime::now().duration_since(UNIX_EPOCH) {
        Ok(d) => Some((d.as_secs(), d.subsec_nanos())),
        Err(_) => None,
    }
}

/// Calls `DateTime::from_timestamp` and reads the instant back (`timestamp`,
/// `timestamp_subsec_nanos`). Claimed: every instant that `chrono` represents
/// is accepted, and an accepted instant comes back unchanged.
#[verifier::external_body]
fn instant_at(secs: i64, nanos: u32) -> (r: Option<Timestamp>)
    ensures
        valid_instant(secs, nanos) ==> r is Some,
        r matches Some(t) ==> t.secs == secs && t.nanos == nanos && t.valid(),
{
    match DateTime::from_timestamp(secs, nanos) {
        Some(u) => Some(Timestamp { secs: u.timestamp(), nanos: u.timestamp_subsec_nanos() }),
        None => None,
    }
}

/// The reason the current time cannot be had.
pub open spec fn clock_error_message() -> Seq<char> {
    "system time before Unix epoch"@
}

/// The current time (as `Utc::now` reads it), or an I/O error when the clock
/// reads a time before 1970, or one past what `chrono` represents.
pub fn clock() -> (r: Result<Timestamp, CoreError>)
    ensures
        r matches Ok(t) ==> t.valid(),
        r matches Err(e) ==> (e matches CoreError::Io(m) && m@ == clock_error_message()),
{
    match unix_clock() {
        Some((secs, nanos)) if secs <= MAX_SECS as u64 => match instant_at(secs as i64, nanos) {
            Some(t) => Ok(t),
            None => Err(CoreError::Io(String::from_str("system time before Unix epoch"))),
        },
        _ => Err(CoreError::Io(String::from_str("system time before Unix epoch"))),
    }
}

/// Reads an RFC 3339 timestamp as stored in the index; text that does not
/// parse is read as the current time (an error when the clock cannot be read).
pub fn parse_ts(s: &str) -> (r: Result<Timestamp, CoreError>)
    ensures
        r matches Ok(t) ==> t.valid(),
        rfc3339_parsed(s@) matches Some(t) ==> (r matches Ok(u) && (u.secs, u.nanos) == t),
        rfc3339_parsed(s@) is None && r is Err ==> (r->Err_0 matches CoreError::Io(m) && m@
            == clock_error_message()),
{
    match parse_rfc3339(s) {
        Some(t) => Ok(t),
        None => clock(),
    }
}

} // verus!
