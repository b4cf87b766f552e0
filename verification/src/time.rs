//! Dates and instants, through `chrono`.
use vstd::prelude::*;
use crate::models::Timestamp;

verus! {

/// The instant, in seconds since the Unix epoch, of midnight UTC of the date
/// that `chrono::NaiveDate::parse_from_str(s, "%Y-%m-%d")` reads from `s`, or
/// `None` where it reports an error.
pub uninterp spec fn ymd_midnight(s: Seq<char>) -> Option<i64>;

/// The text that `chrono` writes for the UTC date of instant `secs` with the
/// format `%Y-%m-%d`; empty where `chrono` has no date for `secs`.
pub uninterp spec fn ymd_text(secs: i64) -> Seq<char>;

/// The instant that `chrono::DateTime::parse_from_rfc3339` reads from `s`,
/// or `None` where it reports an error.
pub uninterp spec fn rfc3339_instant(s: Seq<char>) -> Option<Timestamp>;

/// Calls `chrono::NaiveDate::parse_from_str(s, "%Y-%m-%d")` and, for a date,
/// `and_hms_opt(0, 0, 0)`, `and_utc` and `timestamp`: the midnight of the date
/// as seconds since the epoch. The contract names that result and bounds it:
/// `chrono` holds dates of the years -262143 to 262142 only, whose instants
/// lie well within the bound.
#[verifier::external_body]
pub fn parse_ymd_midnight(s: &str) -> (r: Option<i64>)
    ensures
        r == ymd_midnight(s@),
        r matches Some(t) ==> -1_000_000_000_000_000 < t < 1_000_000_000_000_000,
{
    match chrono::NaiveDate::parse_from_str(s, "%Y-%m-%d") {
        Ok(d) => Some(d.and_hms_opt(0, 0, 0).unwrap().and_utc().timestamp()),
        Err(_) => None,
    }
}

/// Calls `chrono::DateTime::from_timestamp(secs, 0)` and formats the instant
/// with `%Y-%m-%d`; the contract names the text.
#[verifier::external_body]
pub fn format_ymd(secs: i64) -> (r: String)
    ensures
        r@ == ymd_text(secs),
{
    match chrono::DateTime::from_timestamp(secs, 0) {
        Some(d) => d.format("%Y-%m-%d").to_string(),
        None => String::new(),
    }
}

/// Calls `chrono::DateTime::parse_from_rfc3339` and, for an instant, reads its
/// seconds and nanoseconds since the epoch; the contract names the result.
#[verifier::external_body]
pub fn parse_rfc3339(s: &str) -> (r: Option<Timestamp>)
    ensures
        r == rfc3339_instant(s@),
{
    match chrono::DateTime::parse_from_rfc3339(s) {
        Ok(d) => Some(Timestamp { secs: d.timestamp(), nanos: d.timestamp_subsec_nanos() }),
        Err(_) => None,
    }
}

/// Calls `chrono::Utc::now`: the current instant. Nothing is stated of it: it
/// depends on the clock.
#[verifier::external_body]
pub fn now() -> (r: Timestamp) {
    let t = chrono::Utc::now();
    Timestamp { secs: t.timestamp(), nanos: t.timestamp_subsec_nanos() }
}

} // verus!
