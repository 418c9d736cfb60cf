//! Timezone resolution, entrusted to `chrono` and `chrono-tz`.
//!
//! The library keeps every instant as a UTC unix timestamp in whole
//! seconds.  What only the timezone database can answer — which UTC instant
//! a wall-clock time in a named zone denotes, where a zone's day boundary
//! lies — is asked of `chrono-tz` through the trusted wrappers below; their
//! results are named, uninterpreted functions of the arguments, since the
//! zone rules themselves are tables no contract should restate.

use vstd::prelude::*;

verus! {

/// The UTC unix timestamp that Asia/Jerusalem assigns to the local
/// wall-clock time `year-month-day hour:minute:00`, or nothing when that
/// local time is ambiguous or nonexistent there (or no such calendar time
/// exists at all).
pub uninterp spec fn jerusalem_utc_of(
    year: int,
    month: int,
    day: int,
    hour: int,
    minute: int,
) -> Option<int>;

/// Relies on chrono_tz's `Asia::Jerusalem` with chrono's
/// `TimeZone::from_local_datetime`: resolves a local wall-clock time to a
/// single UTC instant, and reports ambiguous or nonexistent local times
/// (DST gaps and overlaps) instead of guessing an offset.
#[verifier::external_body]
pub fn jerusalem_local_to_utc(year: i32, month: u8, day: u8, hour: u8, minute: u8) -> (r: Option<
    i64,
>)
    ensures
        match r {
            Some(t) => jerusalem_utc_of(
                year as int,
                month as int,
                day as int,
                hour as int,
                minute as int,
            ) == Some(t as int),
            None => jerusalem_utc_of(
                year as int,
                month as int,
                day as int,
                hour as int,
                minute as int,
            ) is None,
        },
{
    let date = chrono::NaiveDate::from_ymd_opt(year, month as u32, day as u32)?;
    let naive = date.and_hms_opt(hour as u32, minute as u32, 0)?;
    match chrono::TimeZone::from_local_datetime(&chrono_tz::Asia::Jerusalem, &naive) {
        chrono::LocalResult::Single(t) => Some(t.timestamp()),
        _ => None,
    }
}

/// The UTC unix timestamp of `hour:00:00` wall-clock in America/New_York
/// on the same New York calendar day as the instant `t`.
pub uninterp spec fn ny_wall_clock_of(t: int, hour: int) -> Option<int>;

/// Relies on chrono's `DateTime::from_timestamp` and `Timelike` setters on
/// a `DateTime` in chrono_tz's `America::New_York`: the instant of
/// `hour:00:00` New York wall-clock on the same New York calendar day as
/// `t`.  Nothing comes back when `t` lies outside chrono's representable
/// range, the hour is no hour of a day, or that wall-clock moment falls in
/// a DST gap or overlap.  The result, being a valid chrono instant, lies
/// within chrono's documented year range -262143..=262142, hence the
/// timestamp bound.
#[verifier::external_body]
pub fn ny_wall_clock(t: i64, hour: u8) -> (r: Option<i64>)
    ensures
        match r {
            Some(c) => ny_wall_clock_of(t as int, hour as int) == Some(c as int)
                && -9_000_000_000_000 <= c <= 9_000_000_000_000,
            None => ny_wall_clock_of(t as int, hour as int) is None,
        },
{
    let utc = chrono::DateTime::from_timestamp(t, 0)?;
    let local = utc.with_timezone(&chrono_tz::America::New_York);
    let moment = chrono::Timelike::with_hour(&local, hour as u32)?;
    let moment = chrono::Timelike::with_minute(&moment, 0)?;
    let moment = chrono::Timelike::with_second(&moment, 0)?;
    Some(moment.timestamp())
}

/// The (year, month, day) in the proleptic Gregorian calendar, in UTC, of
/// the instant `t`.
pub uninterp spec fn utc_civil_of(t: int) -> (int, int, int);

/// Relies on chrono's `DateTime::from_timestamp` and the `Datelike`
/// accessors: the UTC calendar date of the instant `t`.  Year, month and
/// day of a valid chrono date fit the returned types; month is 1..=12 and
/// day is 1..=31 as `Datelike` documents.  `from_timestamp` answers for
/// every instant within chrono's documented year range -262143..=262142;
/// eight trillion seconds are fewer than 262 143 years of them, so every
/// `t` within that bound is answered.
#[verifier::external_body]
pub fn utc_civil(t: i64) -> (r: Option<(i32, u8, u8)>)
    ensures
        match r {
            Some((y, m, d)) => utc_civil_of(t as int) == (y as int, m as int, d as int) && 1 <= m
                <= 12 && 1 <= d <= 31,
            None => t < -8_000_000_000_000 || t > 8_000_000_000_000,
        },
{
    let utc = chrono::DateTime::from_timestamp(t, 0)?;
    Some((chrono::Datelike::year(&utc), chrono::Datelike::month(&utc) as u8, chrono::Datelike::day(&utc) as u8))
}

} // verus!
