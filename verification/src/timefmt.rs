//! Timestamp rendering and parsing, delegated to chrono. Times are carried
//! as seconds since the Unix epoch; only formatting crosses into chrono.

use vstd::prelude::*;

verus! {

/// The largest epoch second this library formats: 9999-12-31T23:59:59Z,
/// the last instant with a four-digit year.
pub const MAX_TS_SECS: i64 = 253402300799;

/// What chrono renders for epoch second `secs` as an RFC 3339 timestamp.
pub uninterp spec fn rfc3339_of(secs: i64) -> Seq<char>;

/// What chrono's RFC 3339 parser yields for `s`: the parsed epoch second,
/// or nothing when `s` is not a valid RFC 3339 timestamp.
pub uninterp spec fn rfc3339_parse_of(s: Seq<char>) -> Option<i64>;

/// What chrono renders for epoch second `secs` under the compact
/// year-month-day_hour-minute-second pattern.
pub uninterp spec fn compact_stamp_of(secs: i64) -> Seq<char>;

/// Relies on chrono's `DateTime::from_timestamp` and `to_rfc3339`: within
/// range, the rendering is a function of the epoch second alone.
#[verifier::external_body]
pub fn rfc3339_utc(secs: i64) -> (r: String)
    requires
        0 <= secs <= MAX_TS_SECS,
    ensures
        r@ == rfc3339_of(secs),
{
    match chrono::DateTime::from_timestamp(secs, 0) {
        Some(dt) => dt.to_rfc3339(),
        None => String::new(),
    }
}

/// Relies on chrono's `DateTime::parse_from_rfc3339` and `timestamp`: the
/// result depends on the text alone, and parsing what `to_rfc3339` rendered
/// for an in-range epoch second gives that second back (the two are
/// documented to round-trip through `from_timestamp`).
#[verifier::external_body]
pub fn parse_rfc3339(s: &str) -> (r: Option<i64>)
    ensures
        r == rfc3339_parse_of(s@),
        forall|t: i64| 0 <= t <= MAX_TS_SECS && s@ == rfc3339_of(t) ==> r == Some(t),
{
    match chrono::DateTime::parse_from_rfc3339(s) {
        Ok(dt) => Some(dt.timestamp()),
        Err(_) => None,
    }
}

/// Relies on chrono's `DateTime::from_timestamp` and `format`: within range,
/// the compact stamp is a function of the epoch second alone.
#[verifier::external_body]
pub fn compact_stamp(secs: i64) -> (r: String)
    requires
        0 <= secs <= MAX_TS_SECS,
    ensures
        r@ == compact_stamp_of(secs),
{
    match chrono::DateTime::from_timestamp(secs, 0) {
        Some(dt) => dt.format("%Y%m%d_%H%M%S").to_string(),
        None => String::new(),
    }
}

} // verus!
