//! Instants, calendar days, and their ISO-8601 text forms.
//!
//! An instant is whole seconds since the Unix epoch, UTC; a calendar
//! day is the floor of an instant over the seconds of a day.  Reading
//! and writing the ISO-8601 text form is delegated to the `chrono`
//! crate behind trusted wrappers; both directions are functions of
//! their argument alone, so their results carry uninterpreted names.
use vstd::prelude::*;

use vstd::arithmetic::div_mod::lemma_fundamental_div_mod;
use vstd::arithmetic::div_mod::lemma_fundamental_div_mod_converse;

verus! {

/// Seconds per calendar day.
pub const DAY_SECS: i64 = 86400;

/// Bound on the instants this library works with.  The date types of
/// the `chrono` crate span roughly the years -262143 through 262142,
/// whose epoch seconds stay within this magnitude.
pub const MAX_INSTANT: i64 = 10_000_000_000_000;

/// An instant close enough to the epoch to be representable as a
/// calendar date.
pub open spec fn instant_in_range(secs: int) -> bool {
    -(MAX_INSTANT as int) <= secs <= MAX_INSTANT as int
}

/// The instant an ISO-8601 date-time string denotes, in epoch seconds,
/// or `None` for text that is not such a string.
pub uninterp spec fn rfc3339_parse(s: Seq<char>) -> Option<i64>;

/// The ISO-8601 UTC rendering of an instant given in epoch seconds.
pub uninterp spec fn rfc3339_render(secs: i64) -> Seq<char>;

/// Relies on `chrono::DateTime::parse_from_rfc3339` and
/// `DateTime::timestamp`: the parse accepts exactly the RFC 3339
/// date-time strings, depends on the text alone, and yields a date
/// within chrono's calendar range, whose epoch seconds therefore stay
/// within `MAX_INSTANT`.
#[verifier::external_body]
pub(crate) fn parse_instant(s: &str) -> (r: Option<i64>)
    ensures
        r == rfc3339_parse(s@),
        r is Some ==> instant_in_range(r->0 as int),
{
    match chrono::DateTime::parse_from_rfc3339(s) {
        Ok(dt) => Some(dt.timestamp()),
        Err(_) => None,
    }
}

/// Relies on `chrono::DateTime::from_timestamp` and
/// `DateTime::to_rfc3339`: the rendering depends on the instant alone;
/// an instant outside chrono's calendar range is rendered as the empty
/// string.
#[verifier::external_body]
pub(crate) fn render_instant(secs: i64) -> (r: String)
    ensures
        r@ == rfc3339_render(secs),
{
    match chrono::DateTime::<chrono::Utc>::from_timestamp(secs, 0) {
        Some(dt) => dt.to_rfc3339(),
        None => String::new(),
    }
}

/// The calendar day an instant falls on: epoch days, rounding toward
/// the past.
pub open spec fn day_of(secs: int) -> int {
    secs / (DAY_SECS as int)
}

/// The first instant of a calendar day.
pub open spec fn day_start(day: int) -> int {
    day * (DAY_SECS as int)
}

/// The last whole-second instant of a calendar day.
pub open spec fn day_end(day: int) -> int {
    day * (DAY_SECS as int) + (DAY_SECS as int) - 1
}

/// A day number reachable from an in-range instant.
pub open spec fn day_in_range(day: int) -> bool {
    -120_000_000 <= day <= 120_000_000
}

/// In-range instants fall on in-range days.
pub proof fn lemma_day_of_range(secs: int)
    requires
        instant_in_range(secs),
    ensures
        day_in_range(day_of(secs)),
{
    lemma_fundamental_div_mod(secs, DAY_SECS as int);
}

/// The calendar day of an instant.
pub fn day_of_exec(secs: i64) -> (r: i64)
    requires
        instant_in_range(secs as int),
    ensures
        r as int == day_of(secs as int),
        day_in_range(r as int),
{
    let shifted: i64 = secs + 20_001_600_000_000;
    let q: u64 = (shifted as u64) / 86400;
    let day: i64 = (q as i64) - 231_500_000;
    proof {
        let s = secs as int;
        lemma_fundamental_div_mod(shifted as int, 86400);
        let rem = (shifted as int) % 86400;
        assert(s == (q as int - 231_500_000) * 86400 + rem);
        lemma_fundamental_div_mod_converse(s, 86400, q as int - 231_500_000, rem);
    }
    day
}

/// The first instant of a day, for rendering midnight.
pub fn day_start_exec(day: i64) -> (r: i64)
    requires
        day_in_range(day as int),
    ensures
        r as int == day_start(day as int),
{
    day * 86400
}

/// The last whole-second instant of a day, for rendering its close.
pub fn day_end_exec(day: i64) -> (r: i64)
    requires
        day_in_range(day as int),
    ensures
        r as int == day_end(day as int),
{
    day * 86400 + 86399
}

} // verus!
