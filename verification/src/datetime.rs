//! Calendar plumbing: the process clock, the split of a Unix instant into
//! civil date and time fields, RFC-822 formatting for `Last-Modified`, and
//! HTTP date parsing for `If-Modified-Since`. All of it goes through the
//! `chrono` crate behind trusted wrappers; everything downstream of the
//! returned plain values is verified.

use chrono::Datelike;
use chrono::Timelike;
use vstd::prelude::*;

verus! {

/// A Unix instant split into civil fields (some fixed offset already applied).
pub struct Civil {
    pub year: i32,
    pub month: u8,
    pub day: u8,
    /// Days since Sunday: `0` is Sunday, `6` is Saturday.
    pub weekday: u8,
    pub hour: u8,
    pub minute: u8,
    pub second: u8,
}

/// Highest Unix second this module hands to the calendar: the last second of
/// year 9999.
pub const MAX_CALENDAR_SEC: i64 = 253402300799;

/// The civil fields (year, month, day, weekday, hour, minute, second) that
/// the proleptic Gregorian calendar assigns to a Unix second, as `chrono`
/// computes them.
pub uninterp spec fn civil_of(sec: int) -> (int, int, int, int, int, int, int);

/// The RFC-822 date line (`Sun, 06 Nov 1994 08:49:37 GMT`) for a Unix second,
/// as `chrono` formats it.
pub uninterp spec fn rfc822_of(sec: int) -> Seq<u8>;

/// The Unix second an HTTP date header value denotes, or `None` when the
/// bytes do not parse as an RFC-2822 date, as `chrono` parses them.
pub uninterp spec fn http_date_of(s: Seq<u8>) -> Option<int>;

/// Relies on `chrono::Utc::now`: the current Unix second and the nanoseconds
/// into it. `chrono` keeps the nanosecond field below two billion (values of
/// a billion and above represent a leap second).
#[verifier::external_body]
pub fn now_unix() -> (r: (i64, u32))
    ensures
        r.1 < 2_000_000_000,
{
    let t = chrono::Utc::now();
    (t.timestamp(), t.timestamp_subsec_nanos())
}

/// Relies on `chrono::DateTime::from_timestamp` and the `Datelike` /
/// `Timelike` accessors: the civil fields of a Unix second, with the
/// documented field ranges. Seconds up to year 9999 are always in range for
/// `chrono`, whose calendar reaches about year 262,000.
#[verifier::external_body]
pub fn civil_from_unix(sec: i64) -> (r: Civil)
    requires
        0 <= sec <= MAX_CALENDAR_SEC,
    ensures
        civil_of(sec as int) == (
            r.year as int,
            r.month as int,
            r.day as int,
            r.weekday as int,
            r.hour as int,
            r.minute as int,
            r.second as int,
        ),
        1970 <= r.year <= 9999,
        1 <= r.month <= 12,
        1 <= r.day <= 31,
        r.weekday < 7,
        r.hour < 24,
        r.minute < 60,
        r.second < 60,
{
    let d = chrono::DateTime::from_timestamp(sec, 0).unwrap();
    Civil {
        year: d.year(),
        month: d.month() as u8,
        day: d.day() as u8,
        weekday: d.weekday().num_days_from_sunday() as u8,
        hour: d.hour() as u8,
        minute: d.minute() as u8,
        second: d.second() as u8,
    }
}

/// Relies on `chrono::DateTime::from_timestamp` and `format`: the RFC-822
/// line for a Unix second, in UTC, with the `GMT` suffix the HTTP headers
/// use.
#[verifier::external_body]
pub fn rfc822_utc(sec: i64) -> (r: Vec<u8>)
    requires
        0 <= sec <= MAX_CALENDAR_SEC,
    ensures
        r@ == rfc822_of(sec as int),
{
    let d = chrono::DateTime::from_timestamp(sec, 0).unwrap();
    format!("{}", d.format("%a, %d %b %Y %H:%M:%S GMT")).into_bytes()
}

/// Relies on `chrono::DateTime::parse_from_rfc2822`: the Unix second of an
/// HTTP date header value, or `None` when the bytes are not UTF-8 or do not
/// parse.
#[verifier::external_body]
pub fn parse_http_date(v: &[u8]) -> (r: Option<i64>)
    ensures
        r is Some <==> http_date_of(v@) is Some,
        r matches Some(t) ==> http_date_of(v@) == Some(t as int),
{
    match core::str::from_utf8(v) {
        Ok(s) => chrono::DateTime::parse_from_rfc2822(s).ok().map(|d| d.timestamp()),
        Err(_) => None,
    }
}

} // verus!
