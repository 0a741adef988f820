//! Timestamps. A point in time is a number of seconds since the Unix epoch,
//! kept in an `i64`; a cooldown is a number of seconds kept in a `u64`.

use vstd::prelude::*;

verus! {

/// What `chrono` reads from a text taken as an RFC 2822 date: the seconds
/// since the epoch, or `None` where the text is no such date.
pub uninterp spec fn rfc2822_seconds(text: Seq<char>) -> Option<i64>;

/// What `chrono` reads from a text taken as an RFC 3339 date: the seconds
/// since the epoch, or `None` where the text is no such date.
pub uninterp spec fn rfc3339_seconds(text: Seq<char>) -> Option<i64>;

/// The first reading if there is one, else the second.
pub open spec fn first_reading(first: Option<i64>, second: Option<i64>) -> Option<i64> {
    match first {
        Some(t) => Some(t),
        None => second,
    }
}

/// The publication time that a date text stands for: its RFC 2822 reading,
/// or else its RFC 3339 reading, or else nothing.
pub open spec fn publication_seconds(text: Seq<char>) -> Option<i64> {
    first_reading(rfc2822_seconds(text), rfc3339_seconds(text))
}

/// Calls `chrono::DateTime::parse_from_rfc2822` and, on success,
/// `DateTime::timestamp` on what it returned. Trusted: the result is
/// the named reading of the text; an error becomes `None`.
#[verifier::external_body]
fn read_rfc2822(text: &str) -> (r: Option<i64>)
    ensures
        r == rfc2822_seconds(text@),
{
    match chrono::DateTime::parse_from_rfc2822(text) {
        Ok(date) => Some(date.timestamp()),
        Err(_) => None,
    }
}

/// Calls `chrono::DateTime::parse_from_rfc3339` and, on success,
/// `DateTime::timestamp` on what it returned. Trusted: the result is
/// the named reading of the text; an error becomes `None`.
#[verifier::external_body]
fn read_rfc3339(text: &str) -> (r: Option<i64>)
    ensures
        r == rfc3339_seconds(text@),
{
    match chrono::DateTime::parse_from_rfc3339(text) {
        Ok(date) => Some(date.timestamp()),
        Err(_) => None,
    }
}

/// Picks between two readings of one date text: the first wins.
pub fn choose_reading(first: Option<i64>, second: Option<i64>) -> (r: Option<i64>)
    ensures
        r == first_reading(first, second),
{
    match first {
        Some(t) => Some(t),
        None => second,
    }
}

/// Reads a publication date as feeds write it: RFC 2822 first (RSS), then
/// RFC 3339 (Atom). `None` where the text is neither.
pub fn parse_publication_date(text: &str) -> (r: Option<i64>)
    ensures
        r == publication_seconds(text@),
{
    let first = read_rfc2822(text);
    let second = read_rfc3339(text);
    choose_reading(first, second)
}

} // verus!
