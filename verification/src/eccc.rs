//! The ad-hoc date grammar used by the ECCC listing.
//!
//! The listing writes dates as `"16th November 2017"` and date-times as
//! `"16th November 2017 04:24"`: a day with a mandatory ordinal suffix, a
//! full English month name (case-sensitive), a year, and optionally a
//! wall-clock time with no seconds.  This module parses both forms into the
//! plain calendar values of [`crate::dates`], and can print a calendar date
//! back in the same grammar.
//!
//! Parsing skips leading whitespace and ignores anything after the parsed
//! prefix.  A day or month that does not exist in the calendar is a parse
//! error; nothing is clamped.

use vstd::prelude::*;
use vstd::string::StrSliceExecFns;
use crate::dates::{CalendarDate, LocalDateTime, spec_days_in_month, days_in_month};
use crate::text::{spec_is_space, spec_space_run_end, space_run_end, spec_tokens, spec_views,
    split_tokens, spec_join_leading_sp, join_leading_sp, spec_trim, trim, clone_strings,
    lemma_views_push};
use crate::types::{Paper, Source};

verus! {

/// Errors of date parsing and timezone resolution.
#[derive(Clone, Copy, Debug, PartialEq, Eq, Structural)]
pub enum DateError {
    /// The text does not match the grammar, or names a day that does not
    /// exist in its month.
    Parse,
    /// The local time is ambiguous or nonexistent in the source timezone.
    Timezone,
}

/// Whether `c` is an ASCII decimal digit.
pub open spec fn spec_is_digit(c: char) -> bool {
    48 <= c as u32 <= 57
}

/// The numeric value of an ASCII decimal digit.
pub open spec fn spec_digit_val(c: char) -> int {
    c as u32 - 48
}

/// The position where the run of digits starting at `i` ends.
pub open spec fn spec_digit_run_end(s: Seq<char>, i: int) -> int
    decreases s.len() - i,
        when 0 <= i <= s.len()
{
    if i < s.len() && spec_is_digit(s[i]) {
        spec_digit_run_end(s, i + 1)
    } else {
        i
    }
}

/// The value of the digits `s[i..j]` read in base ten.
pub open spec fn spec_digits_val(s: Seq<char>, i: int, j: int) -> int
    decreases j - i,
{
    if i < j {
        spec_digits_val(s, i, j - 1) * 10 + spec_digit_val(s[j - 1])
    } else {
        0
    }
}

/// A run of one or more digits starting at `i`, read as a number of at most
/// `max`: the value and the position after the run.  `None` if there is no
/// digit at `i` or the value exceeds `max`.
pub open spec fn spec_parse_number(s: Seq<char>, i: int, max: int) -> Option<(int, int)> {
    let j = spec_digit_run_end(s, i);
    if j == i {
        None
    } else if spec_digits_val(s, i, j) > max {
        None
    } else {
        Some((spec_digits_val(s, i, j), j))
    }
}

proof fn lemma_digit_run_end_bounds(s: Seq<char>, i: int)
    requires
        0 <= i <= s.len(),
    ensures
        i <= spec_digit_run_end(s, i) <= s.len(),
        forall|k: int| i <= k < spec_digit_run_end(s, i) ==> spec_is_digit(s[k]),
        spec_digit_run_end(s, i) < s.len() ==> !spec_is_digit(s[spec_digit_run_end(s, i)]),
    decreases s.len() - i,
{
    if i < s.len() && spec_is_digit(s[i]) {
        lemma_digit_run_end_bounds(s, i + 1);
    }
}

proof fn lemma_digits_val_nonneg(s: Seq<char>, i: int, j: int)
    requires
        forall|k: int| i <= k < j ==> spec_is_digit(s[k]),
    ensures
        spec_digits_val(s, i, j) >= 0,
    decreases j - i,
{
    if i < j {
        lemma_digits_val_nonneg(s, i, j - 1);
    }
}

/// Extending a digit run to the right never decreases its value.
proof fn lemma_digits_val_mono(s: Seq<char>, i: int, j1: int, j2: int)
    requires
        i <= j1 <= j2,
        forall|k: int| i <= k < j2 ==> spec_is_digit(s[k]),
    ensures
        spec_digits_val(s, i, j1) <= spec_digits_val(s, i, j2),
    decreases j2 - j1,
{
    if j1 < j2 {
        lemma_digits_val_mono(s, i, j1, j2 - 1);
        lemma_digits_val_nonneg(s, i, j2 - 1);
    }
}

/// Exec mirror of [`spec_digit_run_end`].
fn digit_run_end(s: &str, i: usize) -> (j: usize)
    requires
        i <= s@.len(),
    ensures
        j == spec_digit_run_end(s@, i as int),
        i <= j <= s@.len(),
{
    let n = s.unicode_len();
    let mut j = i;
    loop
        invariant
            i <= j <= n,
            n == s@.len(),
            spec_digit_run_end(s@, i as int) == spec_digit_run_end(s@, j as int),
        ensures
            i <= j <= n,
            spec_digit_run_end(s@, i as int) == j,
        decreases n - j,
    {
        if j < n {
            let c = s.get_char(j);
            let u = c as u32;
            if 48 <= u && u <= 57 {
                j += 1;
                continue;
            }
        }
        break;
    }
    j
}

/// Exec mirror of [`spec_parse_number`]: a digit run read as a number of at
/// most `max`.
fn parse_number(s: &str, i: usize, max: u32) -> (r: Option<(u32, usize)>)
    requires
        i <= s@.len(),
    ensures
        match r {
            Some((v, j)) => spec_parse_number(s@, i as int, max as int) == Some(
                (v as int, j as int),
            ) && i < j <= s@.len(),
            None => spec_parse_number(s@, i as int, max as int) is None,
        },
{
    let j = digit_run_end(s, i);
    proof {
        lemma_digit_run_end_bounds(s@, i as int);
    }
    if j == i {
        return None;
    }
    let mut k = i;
    let mut val: u64 = 0;
    while k < j
        invariant
            i <= k <= j <= s@.len(),
            j == spec_digit_run_end(s@, i as int),
            forall|t: int| i <= t < j ==> spec_is_digit(s@[t]),
            val == spec_digits_val(s@, i as int, k as int),
            val <= max,
        decreases j - k,
    {
        let c = s.get_char(k);
        let d: u64 = (c as u32 - 48) as u64;
        val = val * 10 + d;
        k += 1;
        if val > max as u64 {
            proof {
                lemma_digits_val_mono(s@, i as int, k as int, j as int);
            }
            return None;
        }
    }
    Some((val as u32, j))
}

/// The position after `t` if `s` carries `t` verbatim at `i`, else `None`.
pub open spec fn spec_tag(s: Seq<char>, i: int, t: Seq<char>) -> Option<int> {
    if 0 <= i && i + t.len() <= s.len() && s.subrange(i, i + t.len()) == t {
        Some(i + t.len())
    } else {
        None
    }
}

/// Exec mirror of [`spec_tag`].
fn match_tag(s: &str, i: usize, t: &str) -> (r: Option<usize>)
    requires
        i <= s@.len(),
    ensures
        match r {
            Some(j) => spec_tag(s@, i as int, t@) == Some(j as int) && i <= j <= s@.len(),
            None => spec_tag(s@, i as int, t@) is None,
        },
{
    let n = s.unicode_len();
    let tn = t.unicode_len();
    if tn > n - i {
        return None;
    }
    let mut k: usize = 0;
    loop
        invariant
            0 <= k <= tn,
            i + tn <= n,
            n == s@.len(),
            tn == t@.len(),
            forall|q: int| 0 <= q < k ==> s@[i + q] == t@[q],
        ensures
            (k == tn && forall|q: int| 0 <= q < tn ==> s@[i + q] == t@[q]) || (k < tn && s@[i + k]
                != t@[k as int]),
        decreases tn - k,
    {
        if k == tn {
            break;
        }
        let cs = s.get_char(i + k);
        let ct = t.get_char(k);
        if cs != ct {
            break;
        }
        k += 1;
    }
    if k == tn {
        proof {
            assert(s@.subrange(i as int, i + t@.len()) =~= t@);
        }
        Some(i + tn)
    } else {
        proof {
            assert(s@.subrange(i as int, i + t@.len())[k as int] == s@[i + k]);
        }
        None
    }
}

/// The first of `a` and `b` that holds a value.
pub open spec fn spec_or_else(a: Option<(int, int)>, b: Option<(int, int)>) -> Option<(int, int)> {
    if a is Some {
        a
    } else {
        b
    }
}

/// `t` matched at `i`, labelled with the value `v`.
pub open spec fn spec_labelled_tag(s: Seq<char>, i: int, t: Seq<char>, v: int) -> Option<
    (int, int),
> {
    match spec_tag(s, i, t) {
        Some(j) => Some((v, j)),
        None => None,
    }
}

/// The month number named at `i` by one of the twelve full English month
/// names, and the position after the name.
pub open spec fn spec_parse_month(s: Seq<char>, i: int) -> Option<(int, int)> {
    spec_or_else(
        spec_labelled_tag(s, i, "January"@, 1),
        spec_or_else(
            spec_labelled_tag(s, i, "February"@, 2),
            spec_or_else(
                spec_labelled_tag(s, i, "March"@, 3),
                spec_or_else(
                    spec_labelled_tag(s, i, "April"@, 4),
                    spec_or_else(
                        spec_labelled_tag(s, i, "May"@, 5),
                        spec_or_else(
                            spec_labelled_tag(s, i, "June"@, 6),
                            spec_or_else(
                                spec_labelled_tag(s, i, "July"@, 7),
                                spec_or_else(
                                    spec_labelled_tag(s, i, "August"@, 8),
                                    spec_or_else(
                                        spec_labelled_tag(s, i, "September"@, 9),
                                        spec_or_else(
                                            spec_labelled_tag(s, i, "October"@, 10),
                                            spec_or_else(
                                                spec_labelled_tag(s, i, "November"@, 11),
                                                spec_labelled_tag(s, i, "December"@, 12),
                                            ),
                                        ),
                                    ),
                                ),
                            ),
                        ),
                    ),
                ),
            ),
        ),
    )
}

/// Exec mirror of [`spec_parse_month`].
fn parse_month_at(s: &str, i: usize) -> (r: Option<(u32, usize)>)
    requires
        i <= s@.len(),
    ensures
        match r {
            Some((m, j)) => spec_parse_month(s@, i as int) == Some((m as int, j as int)) && i <= j
                <= s@.len() && 1 <= m <= 12,
            None => spec_parse_month(s@, i as int) is None,
        },
{
    if let Some(j) = match_tag(s, i, "January") {
        Some((1, j))
    } else if let Some(j) = match_tag(s, i, "February") {
        Some((2, j))
    } else if let Some(j) = match_tag(s, i, "March") {
        Some((3, j))
    } else if let Some(j) = match_tag(s, i, "April") {
        Some((4, j))
    } else if let Some(j) = match_tag(s, i, "May") {
        Some((5, j))
    } else if let Some(j) = match_tag(s, i, "June") {
        Some((6, j))
    } else if let Some(j) = match_tag(s, i, "July") {
        Some((7, j))
    } else if let Some(j) = match_tag(s, i, "August") {
        Some((8, j))
    } else if let Some(j) = match_tag(s, i, "September") {
        Some((9, j))
    } else if let Some(j) = match_tag(s, i, "October") {
        Some((10, j))
    } else if let Some(j) = match_tag(s, i, "November") {
        Some((11, j))
    } else if let Some(j) = match_tag(s, i, "December") {
        Some((12, j))
    } else {
        None
    }
}

/// The day number at `i`: digits followed by one of the ordinal suffixes
/// `st`, `nd`, `rd`, `th`.  The suffix is required but its choice carries no
/// meaning.
pub open spec fn spec_parse_day(s: Seq<char>, i: int) -> Option<(int, int)> {
    match spec_parse_number(s, i, u32::MAX as int) {
        None => None,
        Some((d, j)) => spec_or_else(
            spec_labelled_tag(s, j, "st"@, d),
            spec_or_else(
                spec_labelled_tag(s, j, "nd"@, d),
                spec_or_else(
                    spec_labelled_tag(s, j, "rd"@, d),
                    spec_labelled_tag(s, j, "th"@, d),
                ),
            ),
        ),
    }
}

/// Exec mirror of [`spec_parse_day`].
fn parse_day_at(s: &str, i: usize) -> (r: Option<(u32, usize)>)
    requires
        i <= s@.len(),
    ensures
        match r {
            Some((d, j)) => spec_parse_day(s@, i as int) == Some((d as int, j as int)) && i <= j
                <= s@.len(),
            None => spec_parse_day(s@, i as int) is None,
        },
{
    match parse_number(s, i, u32::MAX) {
        None => None,
        Some((d, j)) => {
            if let Some(j2) = match_tag(s, j, "st") {
                Some((d, j2))
            } else if let Some(j2) = match_tag(s, j, "nd") {
                Some((d, j2))
            } else if let Some(j2) = match_tag(s, j, "rd") {
                Some((d, j2))
            } else if let Some(j2) = match_tag(s, j, "th") {
                Some((d, j2))
            } else {
                None
            }
        },
    }
}

/// The rough date `day month year` read at `i`: day with ordinal suffix, a
/// single space, a month name, a single space, a year.  The day must exist
/// in the named month; nothing is clamped.
pub open spec fn spec_parse_rough_at(s: Seq<char>, i: int) -> Option<(CalendarDate, int)> {
    match spec_parse_day(s, i) {
        None => None,
        Some((d, j1)) => match spec_tag(s, j1, " "@) {
            None => None,
            Some(j2) => match spec_parse_month(s, j2) {
                None => None,
                Some((m, j3)) => match spec_tag(s, j3, " "@) {
                    None => None,
                    Some(j4) => match spec_parse_number(s, j4, i32::MAX as int) {
                        None => None,
                        Some((y, j5)) => if 1 <= d <= spec_days_in_month(y, m) {
                            Some(
                                (
                                    CalendarDate {
                                        year: y as i32,
                                        month: m as u8,
                                        day: d as u8,
                                    },
                                    j5,
                                ),
                            )
                        } else {
                            None
                        },
                    },
                },
            },
        },
    }
}

/// The date-time `day month year hour:minute` read at `i`.  The wall-clock
/// time must exist on a 24-hour clock; the grammar has no seconds.
pub open spec fn spec_parse_date_time_at(s: Seq<char>, i: int) -> Option<(LocalDateTime, int)> {
    match spec_parse_rough_at(s, i) {
        None => None,
        Some((date, j1)) => match spec_tag(s, j1, " "@) {
            None => None,
            Some(j2) => match spec_parse_number(s, j2, u32::MAX as int) {
                None => None,
                Some((h, j3)) => match spec_tag(s, j3, ":"@) {
                    None => None,
                    Some(j4) => match spec_parse_number(s, j4, u32::MAX as int) {
                        None => None,
                        Some((mi, j5)) => if h <= 23 && mi <= 59 {
                            Some(
                                (
                                    LocalDateTime { date, hour: h as u8, minute: mi as u8 },
                                    j5,
                                ),
                            )
                        } else {
                            None
                        },
                    },
                },
            },
        },
    }
}

/// What [`parse_rough_date`] returns: leading whitespace is skipped, the
/// rough date is read, and anything after it is ignored.
pub open spec fn spec_parse_rough_date(s: Seq<char>) -> Option<CalendarDate> {
    match spec_parse_rough_at(s, spec_space_run_end(s, 0)) {
        Some((d, _)) => Some(d),
        None => None,
    }
}

/// What [`parse_date`] resolves before the timezone step: leading
/// whitespace is skipped, the date-time is read, and anything after it is
/// ignored.
pub open spec fn spec_parse_date_time(s: Seq<char>) -> Option<LocalDateTime> {
    match spec_parse_date_time_at(s, spec_space_run_end(s, 0)) {
        Some((dt, _)) => Some(dt),
        None => None,
    }
}

/// Exec mirror of [`spec_parse_rough_at`].
fn parse_rough_at(s: &str, i: usize) -> (r: Option<(CalendarDate, usize)>)
    requires
        i <= s@.len(),
    ensures
        match r {
            Some((d, j)) => spec_parse_rough_at(s@, i as int) == Some((d, j as int)) && i <= j
                <= s@.len() && d.wf(),
            None => spec_parse_rough_at(s@, i as int) is None,
        },
{
    let (d, j1) = match parse_day_at(s, i) {
        Some(x) => x,
        None => { return None },
    };
    let j2 = match match_tag(s, j1, " ") {
        Some(x) => x,
        None => { return None },
    };
    let (m, j3) = match parse_month_at(s, j2) {
        Some(x) => x,
        None => { return None },
    };
    let j4 = match match_tag(s, j3, " ") {
        Some(x) => x,
        None => { return None },
    };
    let (y, j5) = match parse_number(s, j4, i32::MAX as u32) {
        Some(x) => x,
        None => { return None },
    };
    let year = y as i32;
    if 1 <= d && d <= days_in_month(year, m as u8) as u32 {
        Some((CalendarDate { year, month: m as u8, day: d as u8 }, j5))
    } else {
        None
    }
}

/// Exec mirror of [`spec_parse_date_time_at`].
fn parse_date_time_at(s: &str, i: usize) -> (r: Option<(LocalDateTime, usize)>)
    requires
        i <= s@.len(),
    ensures
        match r {
            Some((dt, j)) => spec_parse_date_time_at(s@, i as int) == Some((dt, j as int)) && i <= j
                <= s@.len() && dt.wf(),
            None => spec_parse_date_time_at(s@, i as int) is None,
        },
{
    let (date, j1) = match parse_rough_at(s, i) {
        Some(x) => x,
        None => { return None },
    };
    let j2 = match match_tag(s, j1, " ") {
        Some(x) => x,
        None => { return None },
    };
    let (h, j3) = match parse_number(s, j2, u32::MAX) {
        Some(x) => x,
        None => { return None },
    };
    let j4 = match match_tag(s, j3, ":") {
        Some(x) => x,
        None => { return None },
    };
    let (mi, j5) = match parse_number(s, j4, u32::MAX) {
        Some(x) => x,
        None => { return None },
    };
    if h <= 23 && mi <= 59 {
        Some((LocalDateTime { date, hour: h as u8, minute: mi as u8 }, j5))
    } else {
        None
    }
}

/// A run of digits at the start of `input`, read as a `u32`: the position
/// after the digits and the value.
pub fn parse_u32(input: &str) -> (r: Result<(usize, u32), DateError>)
    ensures
        match r {
            Ok((j, v)) => spec_parse_number(input@, 0, u32::MAX as int) == Some(
                (v as int, j as int),
            ),
            Err(e) => spec_parse_number(input@, 0, u32::MAX as int) is None && e
                == DateError::Parse,
        },
{
    match parse_number(input, 0, u32::MAX) {
        Some((v, j)) => Ok((j, v)),
        None => Err(DateError::Parse),
    }
}

/// A run of digits at the start of `input`, read as an `i32` (the grammar
/// has no sign, so the value is never negative).
pub fn parse_i32(input: &str) -> (r: Result<(usize, i32), DateError>)
    ensures
        match r {
            Ok((j, v)) => spec_parse_number(input@, 0, i32::MAX as int) == Some(
                (v as int, j as int),
            ),
            Err(e) => spec_parse_number(input@, 0, i32::MAX as int) is None && e
                == DateError::Parse,
        },
{
    match parse_number(input, 0, i32::MAX as u32) {
        Some((v, j)) => Ok((j, v as i32)),
        None => Err(DateError::Parse),
    }
}

/// The day-with-ordinal-suffix production at the start of `input`.
pub fn eccc_rough_day(input: &str) -> (r: Result<(usize, u32), DateError>)
    ensures
        match r {
            Ok((j, d)) => spec_parse_day(input@, 0) == Some((d as int, j as int)),
            Err(e) => spec_parse_day(input@, 0) is None && e == DateError::Parse,
        },
{
    match parse_day_at(input, 0) {
        Some((d, j)) => Ok((j, d)),
        None => Err(DateError::Parse),
    }
}

/// The month-name production at the start of `input`.
pub fn eccc_rough_month(input: &str) -> (r: Result<(usize, u32), DateError>)
    ensures
        match r {
            Ok((j, m)) => spec_parse_month(input@, 0) == Some((m as int, j as int)),
            Err(e) => spec_parse_month(input@, 0) is None && e == DateError::Parse,
        },
{
    match parse_month_at(input, 0) {
        Some((m, j)) => Ok((j, m)),
        None => Err(DateError::Parse),
    }
}

/// The whole rough-date production at the start of `input`, with no
/// whitespace skipping.
pub fn eccc_rough_date(input: &str) -> (r: Result<(usize, CalendarDate), DateError>)
    ensures
        match r {
            Ok((j, d)) => spec_parse_rough_at(input@, 0) == Some((d, j as int)) && d.wf(),
            Err(e) => spec_parse_rough_at(input@, 0) is None && e == DateError::Parse,
        },
{
    match parse_rough_at(input, 0) {
        Some((d, j)) => Ok((j, d)),
        None => Err(DateError::Parse),
    }
}

/// The whole date-time production at the start of `input`, with no
/// whitespace skipping.
pub fn eccc_date_time(input: &str) -> (r: Result<(usize, LocalDateTime), DateError>)
    ensures
        match r {
            Ok((j, dt)) => spec_parse_date_time_at(input@, 0) == Some((dt, j as int)) && dt.wf(),
            Err(e) => spec_parse_date_time_at(input@, 0) is None && e == DateError::Parse,
        },
{
    match parse_date_time_at(input, 0) {
        Some((dt, j)) => Ok((j, dt)),
        None => Err(DateError::Parse),
    }
}

/// The ASCII digit character for the value `d`.
pub open spec fn spec_digit_char(d: int) -> char {
    ((48 + d) as u8) as char
}

/// The decimal digits of the non-negative number `n`, most significant
/// first, with no sign and no leading zeroes (a single `'0'` for zero).
pub open spec fn spec_dec(n: int) -> Seq<char>
    decreases n,
        when n >= 0
{
    if n < 10 {
        seq![spec_digit_char(n)]
    } else {
        spec_dec(n / 10).push(spec_digit_char(n % 10))
    }
}

proof fn lemma_dec_digits(n: int)
    requires
        n >= 0,
    ensures
        spec_dec(n).len() >= 1,
        forall|k: int| 0 <= k < spec_dec(n).len() ==> spec_is_digit(#[trigger] spec_dec(n)[k]),
    decreases n,
{
    if n >= 10 {
        lemma_dec_digits(n / 10);
    }
}

/// A run of digits bounded on the right by the end of the string or a
/// non-digit is exactly the digit run.
proof fn lemma_digit_run_exact(s: Seq<char>, i: int, j: int)
    requires
        0 <= i <= j <= s.len(),
        forall|k: int| i <= k < j ==> spec_is_digit(s[k]),
        j < s.len() ==> !spec_is_digit(s[j]),
    ensures
        spec_digit_run_end(s, i) == j,
    decreases j - i,
{
    if i < j {
        lemma_digit_run_exact(s, i + 1, j);
    }
}

/// Reading back the decimal digits of `n` written at position `i` yields
/// `n`.
proof fn lemma_digits_val_of_dec(s: Seq<char>, i: int, n: int)
    requires
        n >= 0,
        0 <= i,
        i + spec_dec(n).len() <= s.len(),
        s.subrange(i, i + spec_dec(n).len()) == spec_dec(n),
    ensures
        spec_digits_val(s, i, i + spec_dec(n).len()) == n,
    decreases n,
{
    let w = spec_dec(n);
    if n < 10 {
        reveal_with_fuel(spec_digits_val, 2);
        assert(s.subrange(i, i + 1)[0] == s[i]);
        assert(s[i] == w[0]);
        assert(spec_digit_val(s[i]) == n);
    } else {
        let w0 = spec_dec(n / 10);
        assert(w == w0.push(spec_digit_char(n % 10)));
        assert(s.subrange(i, i + w0.len() as int) =~= w0) by {
            assert forall|k: int| 0 <= k < w0.len() implies s.subrange(i, i + w0.len() as int)[k]
                == w0[k] by {
                assert(s.subrange(i, i + w.len() as int)[k] == w[k]);
                assert(w[k] == w0[k]);
                assert(s.subrange(i, i + w0.len() as int)[k] == s[i + k]);
                assert(s.subrange(i, i + w.len() as int)[k] == s[i + k]);
            }
        }
        lemma_digits_val_of_dec(s, i, n / 10);
        assert(s.subrange(i, i + w.len() as int)[w.len() - 1] == s[i + w.len() - 1]);
        assert(s[i + w.len() - 1] == w[w.len() - 1]);
        assert(spec_digit_val(s[i + w.len() - 1]) == n % 10);
    }
}

/// The ordinal suffix English writes after the day number.
pub open spec fn spec_ordinal_suffix(day: int) -> Seq<char> {
    if day % 10 == 1 && day % 100 != 11 {
        "st"@
    } else if day % 10 == 2 && day % 100 != 12 {
        "nd"@
    } else if day % 10 == 3 && day % 100 != 13 {
        "rd"@
    } else {
        "th"@
    }
}

/// The full English name of month `m`.
pub open spec fn spec_month_name(m: int) -> Seq<char> {
    if m == 1 {
        "January"@
    } else if m == 2 {
        "February"@
    } else if m == 3 {
        "March"@
    } else if m == 4 {
        "April"@
    } else if m == 5 {
        "May"@
    } else if m == 6 {
        "June"@
    } else if m == 7 {
        "July"@
    } else if m == 8 {
        "August"@
    } else if m == 9 {
        "September"@
    } else if m == 10 {
        "October"@
    } else if m == 11 {
        "November"@
    } else {
        "December"@
    }
}

/// The canonical text of a calendar date in the rough-date grammar:
/// day, ordinal suffix, space, month name, space, year.
pub open spec fn spec_format_rough_date(d: CalendarDate) -> Seq<char> {
    spec_dec(d.day as int) + spec_ordinal_suffix(d.day as int) + seq![' '] + spec_month_name(
        d.month as int,
    ) + seq![' '] + spec_dec(d.year as int)
}

/// The digit character for `d`.
fn digit_char(d: u32) -> (c: char)
    requires
        d < 10,
    ensures
        c == spec_digit_char(d as int),
{
    (48 + d as u8) as char
}

/// Appends the decimal digits of `n` to `out`.
pub(crate) fn push_decimal(out: &mut String, n: u32)
    ensures
        final(out)@ == old(out)@ + spec_dec(n as int),
    decreases n,
{
    if n < 10 {
        crate::text::push_char(out, digit_char(n));
        proof {
            assert(old(out)@.push(spec_digit_char(n as int)) =~= old(out)@ + spec_dec(n as int));
        }
    } else {
        push_decimal(out, n / 10);
        crate::text::push_char(out, digit_char(n % 10));
        proof {
            assert((old(out)@ + spec_dec(n as int / 10)).push(spec_digit_char(n as int % 10))
                =~= old(out)@ + spec_dec(n as int));
        }
    }
}

/// Prints a calendar date back in the rough-date grammar, e.g.
/// `"3rd November 2017"`.  The suffix is the canonical English ordinal;
/// the parser accepts any of the four suffixes, so the printed text always
/// parses back to the same date — see [`lemma_format_parse_round_trip`].
pub fn format_rough_date(d: &CalendarDate) -> (r: String)
    requires
        d.wf(),
    ensures
        r@ == spec_format_rough_date(*d),
{
    let mut out = String::new();
    proof {
        assert(Seq::<char>::empty() + spec_dec(d.day as int) =~= spec_dec(d.day as int));
    }
    push_decimal(&mut out, d.day as u32);
    let day = d.day as u32;
    let suffix: &str = if day % 10 == 1 && day % 100 != 11 {
        "st"
    } else if day % 10 == 2 && day % 100 != 12 {
        "nd"
    } else if day % 10 == 3 && day % 100 != 13 {
        "rd"
    } else {
        "th"
    };
    out.append(suffix);
    out.append(" ");
    let name: &str = if d.month == 1 {
        "January"
    } else if d.month == 2 {
        "February"
    } else if d.month == 3 {
        "March"
    } else if d.month == 4 {
        "April"
    } else if d.month == 5 {
        "May"
    } else if d.month == 6 {
        "June"
    } else if d.month == 7 {
        "July"
    } else if d.month == 8 {
        "August"
    } else if d.month == 9 {
        "September"
    } else if d.month == 10 {
        "October"
    } else if d.month == 11 {
        "November"
    } else {
        "December"
    };
    out.append(name);
    out.append(" ");
    push_decimal(&mut out, d.year as u32);
    proof {
        assert(" "@ =~= seq![' ']) by {
            reveal_strlit(" ");
        }
        assert(out@ =~= spec_format_rough_date(*d));
    }
    out
}

/// A tag fails wherever some character disagrees.
proof fn lemma_tag_mismatch(s: Seq<char>, i: int, t: Seq<char>, k: int)
    requires
        0 <= k < t.len(),
        0 <= i,
        i + k < s.len(),
        s[i + k] != t[k],
    ensures
        spec_tag(s, i, t) is None,
{
    if i + t.len() <= s.len() {
        if s.subrange(i, i + t.len()) == t {
            assert(s.subrange(i, i + t.len())[k] == s[i + k]);
        }
    }
}

/// Month-name parsing at a spot that carries exactly the name of month
/// `m` resolves to `m`: no other month name can match there, since no two
/// names agree on their common prefix.
proof fn lemma_month_parse_at(s: Seq<char>, i: int, m: int)
    requires
        1 <= m <= 12,
        0 <= i,
        i + spec_month_name(m).len() <= s.len(),
        s.subrange(i, i + spec_month_name(m).len()) == spec_month_name(m),
    ensures
        spec_parse_month(s, i) == Some((m, i + spec_month_name(m).len())),
{
    reveal_strlit("January");
    reveal_strlit("February");
    reveal_strlit("March");
    reveal_strlit("April");
    reveal_strlit("May");
    reveal_strlit("June");
    reveal_strlit("July");
    reveal_strlit("August");
    reveal_strlit("September");
    reveal_strlit("October");
    reveal_strlit("November");
    reveal_strlit("December");
    let w = spec_month_name(m);
    assert forall|k: int| 0 <= k < w.len() implies s[i + k] == w[k] by {
        assert(s.subrange(i, i + w.len())[k] == s[i + k]);
    }
    assert(s.subrange(i, i + w.len())[0] == s[i]);
    assert(s[i] == w[0]);
    assert(s.subrange(i, i + w.len())[1] == s[i + 1]);
    assert(s[i + 1] == w[1]);
    assert(s.subrange(i, i + w.len())[2] == s[i + 2]);
    assert(s[i + 2] == w[2]);
    if m > 1 {
        if m == 6 || m == 7 {
            lemma_tag_mismatch(s, i, "January"@, 1);
        } else {
            lemma_tag_mismatch(s, i, "January"@, 0);
        }
    }
    if m > 2 {
        lemma_tag_mismatch(s, i, "February"@, 0);
    }
    if m > 3 {
        if m == 5 {
            lemma_tag_mismatch(s, i, "March"@, 2);
        } else {
            lemma_tag_mismatch(s, i, "March"@, 0);
        }
    }
    if m > 4 {
        if m == 8 {
            lemma_tag_mismatch(s, i, "April"@, 1);
        } else {
            lemma_tag_mismatch(s, i, "April"@, 0);
        }
    }
    if m > 5 {
        lemma_tag_mismatch(s, i, "May"@, 0);
    }
    if m > 6 {
        if m == 7 {
            lemma_tag_mismatch(s, i, "June"@, 2);
        } else {
            lemma_tag_mismatch(s, i, "June"@, 0);
        }
    }
    if m > 7 {
        lemma_tag_mismatch(s, i, "July"@, 0);
    }
    if m > 8 {
        lemma_tag_mismatch(s, i, "August"@, 0);
    }
    if m > 9 {
        lemma_tag_mismatch(s, i, "September"@, 0);
    }
    if m > 10 {
        lemma_tag_mismatch(s, i, "October"@, 0);
    }
    if m > 11 {
        lemma_tag_mismatch(s, i, "November"@, 0);
    }
}

/// Round trip: printing any well-formed calendar date in the rough-date
/// grammar and parsing the text back yields that same date.  The printed
/// suffix and spacing are canonical, but nothing else of the text matters
/// to the parser, so equality is exact.
pub proof fn lemma_format_parse_round_trip(d: CalendarDate)
    requires
        d.wf(),
    ensures
        spec_parse_rough_date(spec_format_rough_date(d)) == Some(d),
{
    reveal_strlit("st");
    reveal_strlit("nd");
    reveal_strlit("rd");
    reveal_strlit("th");
    let day = spec_dec(d.day as int);
    let suf = spec_ordinal_suffix(d.day as int);
    let name = spec_month_name(d.month as int);
    let year = spec_dec(d.year as int);
    let s = spec_format_rough_date(d);
    lemma_dec_digits(d.day as int);
    lemma_dec_digits(d.year as int);
    let l1 = day.len() as int;
    let l2 = l1 + 2;
    let l3 = l2 + 1;
    let l4 = l3 + name.len() as int;
    let l5 = l4 + 1;
    let end = l5 + year.len() as int;
    assert(s.len() == end);
    assert(suf.len() == 2);
    assert forall|k: int| 0 <= k < l1 implies s[k] == day[k] by {}
    assert forall|k: int| 0 <= k < 2 implies s[l1 + k] == suf[k] by {}
    assert(s[l2] == ' ');
    assert forall|k: int| 0 <= k < name.len() implies s[l3 + k] == name[k] by {}
    assert(s[l4] == ' ');
    assert forall|k: int| 0 <= k < year.len() implies s[l5 + k] == year[k] by {}
    // no leading whitespace: the first character is a digit
    assert(!spec_is_space(s[0]));
    assert(spec_space_run_end(s, 0) == 0);
    // the day number
    assert(!spec_is_digit(s[l1]));
    lemma_digit_run_exact(s, 0, l1);
    assert(s.subrange(0, l1) =~= day);
    lemma_digits_val_of_dec(s, 0, d.day as int);
    assert(spec_parse_number(s, 0, u32::MAX as int) == Some((d.day as int, l1)));
    // the ordinal suffix: whichever of the four it is, it matches and the
    // others are refused in order
    assert(s.subrange(l1, l2) =~= suf);
    if suf =~= "st"@ {
        assert(spec_tag(s, l1, "st"@) == Some(l2));
    } else if suf =~= "nd"@ {
        lemma_tag_mismatch(s, l1, "st"@, 0);
        assert(spec_tag(s, l1, "nd"@) == Some(l2));
    } else if suf =~= "rd"@ {
        lemma_tag_mismatch(s, l1, "st"@, 0);
        lemma_tag_mismatch(s, l1, "nd"@, 0);
        assert(spec_tag(s, l1, "rd"@) == Some(l2));
    } else {
        assert(suf =~= "th"@);
        lemma_tag_mismatch(s, l1, "st"@, 0);
        lemma_tag_mismatch(s, l1, "nd"@, 1);
        lemma_tag_mismatch(s, l1, "rd"@, 1);
        assert(spec_tag(s, l1, "th"@) == Some(l2));
    }
    assert(spec_parse_day(s, 0) == Some((d.day as int, l2)));
    // the space before the month name
    reveal_strlit(" ");
    assert(s.subrange(l2, l3) =~= " "@);
    assert(spec_tag(s, l2, " "@) == Some(l3));
    // the month name
    assert(s.subrange(l3, l4) =~= name);
    lemma_month_parse_at(s, l3, d.month as int);
    // the space before the year
    assert(s.subrange(l4, l5) =~= " "@);
    assert(spec_tag(s, l4, " "@) == Some(l5));
    // the year
    lemma_digit_run_exact(s, l5, end);
    assert(s.subrange(l5, end) =~= year);
    lemma_digits_val_of_dec(s, l5, d.year as int);
    assert(spec_parse_number(s, l5, i32::MAX as int) == Some((d.year as int, end)));
    assert(spec_parse_rough_at(s, 0) == Some((d, end)));
}

/// Parses a rough date (`"16th November 2017"`) from the overview page.
/// Leading whitespace is skipped and trailing text is ignored.
pub fn parse_rough_date(t: &str) -> (r: Result<CalendarDate, DateError>)
    ensures
        match r {
            Ok(d) => spec_parse_rough_date(t@) == Some(d) && d.wf(),
            Err(e) => spec_parse_rough_date(t@) is None && e == DateError::Parse,
        },
{
    let i = space_run_end(t, 0);
    match parse_rough_at(t, i) {
        Some((d, _)) => Ok(d),
        None => Err(DateError::Parse),
    }
}

/// Parses a date-time (`"16th November 2017 04:24"`) from a details page
/// and resolves it from Asia/Jerusalem wall-clock time — the fixed zone the
/// listing publishes in — to a UTC unix timestamp.  An ambiguous or
/// nonexistent local time is an error, never a guessed offset.
pub fn parse_date(t: &str) -> (r: Result<i64, DateError>)
    ensures
        match spec_parse_date_time(t@) {
            None => r == Err::<i64, DateError>(DateError::Parse),
            Some(dt) => match crate::tz::jerusalem_utc_of(
                dt.date.year as int,
                dt.date.month as int,
                dt.date.day as int,
                dt.hour as int,
                dt.minute as int,
            ) {
                Some(u) => r matches Ok(v) && v as int == u,
                None => r == Err::<i64, DateError>(DateError::Timezone),
            },
        },
{
    let i = space_run_end(t, 0);
    let dt = match parse_date_time_at(t, i) {
        Some((dt, _)) => dt,
        None => { return Err(DateError::Parse) },
    };
    match crate::tz::jerusalem_local_to_utc(
        dt.date.year,
        dt.date.month,
        dt.date.day,
        dt.hour,
        dt.minute,
    ) {
        Some(u) => Ok(u),
        None => Err(DateError::Timezone),
    }
}

/// A rough paper gathers what the summary page alone can give: the title,
/// the link to the details page, a date with no time of day, and the
/// authors.  It is resolved into a full [`Paper`] by a details-page fetch
/// and discarded afterwards.
#[derive(Debug, PartialEq, Eq)]
pub struct RoughPaper {
    /// The title of the paper, trimmed but not yet sanitized.
    pub title: String,
    /// The link to the details page — not the link to the paper itself.
    pub details_link: String,
    /// The date when the paper was published; no time of day yet.
    pub rough_published: CalendarDate,
    /// The authors of the paper.
    pub authors: Vec<String>,
}

/// Adjacent words of `ts` merged in pairs, a space between the two; an odd
/// leftover word is dropped.
pub open spec fn spec_author_pairs(ts: Seq<Seq<char>>) -> Seq<Seq<char>> {
    Seq::new((ts.len() / 2) as nat, |i: int| ts[2 * i] + seq![' '] + ts[2 * i + 1])
}

/// The authors named in a raw author line: the first five words are an id
/// and a link and are skipped; the rest pair up into `"First Last"` names.
pub open spec fn spec_extract_authors(s: Seq<char>) -> Seq<Seq<char>> {
    let ts = spec_tokens(s);
    if ts.len() >= 5 {
        spec_author_pairs(ts.skip(5))
    } else {
        Seq::empty()
    }
}

/// Extracts the authors from the raw author line of a summary-page entry.
pub fn extract_authors(authors_raw: &str) -> (r: Vec<String>)
    ensures
        spec_views(r@) == spec_extract_authors(authors_raw@),
{
    let toks = split_tokens(authors_raw);
    let ghost ts = spec_tokens(authors_raw@);
    let mut out: Vec<String> = Vec::new();
    let n = toks.len();
    if n < 5 {
        proof {
            assert(spec_views(out@) =~= spec_extract_authors(authors_raw@));
        }
        return out;
    }
    let ghost tail = ts.skip(5);
    let mut i: usize = 5;
    while i < n - 1
        invariant
            n == toks@.len(),
            spec_views(toks@) == ts,
            tail == ts.skip(5),
            n >= 5,
            5 <= i,
            i % 2 == 1,
            i - 5 == 2 * out@.len(),
            i <= n,
            spec_views(out@).len() == out@.len(),
            forall|k: int|
                0 <= k < out@.len() ==> spec_views(out@)[k] == tail[2 * k] + seq![' '] + tail[2 * k
                    + 1],
        decreases n - i,
    {
        let mut word = toks[i].clone();
        word.append(" ");
        word.append(toks[i + 1].as_str());
        proof {
            reveal_strlit(" ");
            let ghost k = out@.len() as int;
            assert(word@ =~= toks@[i as int]@ + seq![' '] + toks@[i + 1]@);
            assert(toks@[i as int]@ == ts[i as int]);
            assert(toks@[i + 1]@ == ts[i + 1]);
            assert(tail[2 * k] == ts[i as int]);
            assert(tail[2 * k + 1] == ts[i + 1]);
            lemma_views_push(out@, word);
        }
        out.push(word);
        i += 2;
    }
    proof {
        let ghost ln = tail.len() as int;
        assert(2 * out@.len() <= ln);
        assert(ln < 2 * out@.len() + 2);
        assert(out@.len() == ln / 2);
        assert(spec_views(out@) =~= spec_author_pairs(tail));
    }
    out
}

/// The first two words of the line, joined with a leading space each: the
/// report id part.
pub open spec fn spec_id_part(s: Seq<char>) -> Seq<char> {
    let ts = spec_tokens(s);
    spec_join_leading_sp(
        ts.take(
            if ts.len() < 2 {
                ts.len() as int
            } else {
                2
            },
        ),
    )
}

/// Everything after the first two words, joined with a leading space each:
/// the rough date part.
pub open spec fn spec_date_part(s: Seq<char>) -> Seq<char> {
    let ts = spec_tokens(s);
    spec_join_leading_sp(
        ts.skip(
            if ts.len() < 2 {
                ts.len() as int
            } else {
                2
            },
        ),
    )
}

/// Splits the summary line into the report id (its first two words) and
/// the rough date parsed from the remaining words.
pub fn extract_id_rough_date(id_date_raw: &str) -> (r: Result<(String, CalendarDate), DateError>)
    ensures
        match r {
            Ok((id, d)) => id@ == spec_id_part(id_date_raw@) && spec_parse_rough_date(
                spec_date_part(id_date_raw@),
            ) == Some(d) && d.wf(),
            Err(e) => spec_parse_rough_date(spec_date_part(id_date_raw@)) is None && e
                == DateError::Parse,
        },
{
    let toks = split_tokens(id_date_raw);
    let ghost ts = spec_tokens(id_date_raw@);
    let n = toks.len();
    let k = if n < 2 {
        n
    } else {
        2
    };
    let mut id_toks: Vec<String> = Vec::new();
    let mut i: usize = 0;
    while i < k
        invariant
            i <= k <= n,
            n == toks@.len(),
            spec_views(toks@) == ts,
            spec_views(id_toks@) =~= ts.take(i as int),
        decreases k - i,
    {
        let t = toks[i].clone();
        proof {
            lemma_views_push(id_toks@, t);
        }
        id_toks.push(t);
        proof {
            assert(spec_views(id_toks@) =~= ts.take(i + 1));
        }
        i += 1;
    }
    let mut date_toks: Vec<String> = Vec::new();
    let mut j: usize = k;
    while j < n
        invariant
            k <= j <= n,
            n == toks@.len(),
            spec_views(toks@) == ts,
            spec_views(date_toks@) =~= ts.subrange(k as int, j as int),
        decreases n - j,
    {
        let t = toks[j].clone();
        proof {
            lemma_views_push(date_toks@, t);
        }
        date_toks.push(t);
        proof {
            assert(spec_views(date_toks@) =~= ts.subrange(k as int, j + 1));
        }
        j += 1;
    }
    proof {
        assert(ts.subrange(k as int, n as int) =~= ts.skip(k as int));
    }
    let id = join_leading_sp(&id_toks);
    let date_text = join_leading_sp(&date_toks);
    match parse_rough_date(date_text.as_str()) {
        Ok(d) => Ok((id, d)),
        Err(_) => Err(DateError::Parse),
    }
}

/// Resolves a rough paper into a full paper, given the remaining fields:
/// the download link, the abstract, and the exact publication instant.
/// The title is sanitized here; the source is always the ECCC tag.
pub fn to_paper(p: &RoughPaper, link: String, description: String, published: i64) -> (r: Paper)
    ensures
        r.title@ == crate::types::spec_sanitize_title(p.title@),
        r.source == Source::ECCC,
        r.authors@ == p.authors@,
        r.link == link,
        r.description == description,
        r.published == published,
{
    Paper {
        title: crate::types::sanitize_title(p.title.as_str()),
        source: Source::ECCC,
        authors: clone_strings(&p.authors),
        link,
        description,
        published,
    }
}

/// Builds a rough paper from the four raw texts a summary-page entry
/// carries: the id-and-date line, the details link, the title, and the
/// author line.  Fails exactly when the date part does not parse.
pub fn rough_paper_from_parts(
    id_date_raw: &str,
    link_raw: &str,
    title_raw: &str,
    authors_raw: &str,
) -> (r: Result<RoughPaper, DateError>)
    ensures
        match r {
            Ok(rp) => spec_parse_rough_date(spec_date_part(id_date_raw@)) == Some(
                rp.rough_published,
            ) && rp.rough_published.wf() && rp.details_link@ == "https://eccc.weizmann.ac.il"@
                + spec_trim(link_raw@) && rp.title@ == spec_trim(title_raw@) && spec_views(
                rp.authors@,
            ) == spec_extract_authors(authors_raw@),
            Err(e) => spec_parse_rough_date(spec_date_part(id_date_raw@)) is None && e
                == DateError::Parse,
        },
{
    let date = match extract_id_rough_date(id_date_raw) {
        Ok((_, d)) => d,
        Err(e) => { return Err(e) },
    };
    let mut link = "https://eccc.weizmann.ac.il".to_owned();
    let tail = trim(link_raw);
    link.append(tail.as_str());
    let title = trim(title_raw);
    let authors = extract_authors(authors_raw);
    Ok(RoughPaper { title, details_link: link, rough_published: date, authors })
}

/// The position of the first `'|'` at or after `i`, or the end.
pub open spec fn spec_bar_end(s: Seq<char>, i: int) -> int
    decreases s.len() - i,
        when 0 <= i <= s.len()
{
    if i < s.len() && s[i] != '|' {
        spec_bar_end(s, i + 1)
    } else {
        i
    }
}

/// Exec mirror of [`spec_bar_end`].
fn bar_end(s: &str, i: usize) -> (j: usize)
    requires
        i <= s@.len(),
    ensures
        j == spec_bar_end(s@, i as int),
        i <= j <= s@.len(),
{
    let n = s.unicode_len();
    let mut j = i;
    loop
        invariant
            i <= j <= n,
            n == s@.len(),
            spec_bar_end(s@, i as int) == spec_bar_end(s@, j as int),
        ensures
            i <= j <= n,
            spec_bar_end(s@, i as int) == j,
        decreases n - j,
    {
        if j < n {
            let c = s.get_char(j);
            if c != '|' {
                j += 1;
                continue;
            }
        }
        break;
    }
    j
}

/// The date text of a details-page header line, whose shape is
/// `"TR17-177 | 16th November 2017 04:24 ..."`: the first four words after
/// the first `'|'`, each with a leading space.  Nothing when the line has
/// no `'|'` at all.
pub open spec fn spec_detail_date_text(s: Seq<char>) -> Option<Seq<char>> {
    let a = spec_bar_end(s, 0);
    if a >= s.len() {
        None
    } else {
        let b = spec_bar_end(s, a + 1);
        let ts = spec_tokens(s.subrange(a + 1, b));
        Some(
            spec_join_leading_sp(
                ts.take(
                    if ts.len() < 4 {
                        ts.len() as int
                    } else {
                        4
                    },
                ),
            ),
        )
    }
}

/// Reads the publication instant out of a details-page header line: the
/// field between the first two `'|'` separators holds the date-time text,
/// which is parsed and resolved from the source timezone to UTC.
pub fn parse_detail_published(id_and_date_text: &str) -> (r: Result<i64, DateError>)
    ensures
        match spec_detail_date_text(id_and_date_text@) {
            None => r == Err::<i64, DateError>(DateError::Parse),
            Some(txt) => match spec_parse_date_time(txt) {
                None => r == Err::<i64, DateError>(DateError::Parse),
                Some(dt) => match crate::tz::jerusalem_utc_of(
                    dt.date.year as int,
                    dt.date.month as int,
                    dt.date.day as int,
                    dt.hour as int,
                    dt.minute as int,
                ) {
                    Some(u) => r matches Ok(v) && v as int == u,
                    None => r == Err::<i64, DateError>(DateError::Timezone),
                },
            },
        },
{
    let n = id_and_date_text.unicode_len();
    let a = bar_end(id_and_date_text, 0);
    if a >= n {
        return Err(DateError::Parse);
    }
    let b = bar_end(id_and_date_text, a + 1);
    let seg = id_and_date_text.substring_char(a + 1, b);
    let toks = split_tokens(seg);
    let ghost ts = spec_tokens(seg@);
    let n2 = toks.len();
    let k = if n2 < 4 {
        n2
    } else {
        4
    };
    let mut date_toks: Vec<String> = Vec::new();
    let mut i: usize = 0;
    while i < k
        invariant
            i <= k <= n2,
            n2 == toks@.len(),
            spec_views(toks@) == ts,
            spec_views(date_toks@) =~= ts.take(i as int),
        decreases k - i,
    {
        let t = toks[i].clone();
        proof {
            lemma_views_push(date_toks@, t);
        }
        date_toks.push(t);
        proof {
            assert(spec_views(date_toks@) =~= ts.take(i + 1));
        }
        i += 1;
    }
    let date_text = join_leading_sp(&date_toks);
    parse_date(date_text.as_str())
}

/// Lexicographic order on calendar dates: `a` on or before `b`.
pub open spec fn spec_date_lex_le(a: CalendarDate, b: CalendarDate) -> bool {
    a.year < b.year || (a.year == b.year && (a.month < b.month || (a.month == b.month && a.day
        <= b.day)))
}

/// Whether `a` lies on or before `b` in the calendar.
pub fn date_le(a: &CalendarDate, b: &CalendarDate) -> (r: bool)
    ensures
        r == spec_date_lex_le(*a, *b),
{
    a.year < b.year || (a.year == b.year && (a.month < b.month || (a.month == b.month && a.day
        <= b.day)))
}

/// The summary prefilter date for a check whose UTC calendar day is
/// `(year, month, day)`: one day earlier within the month, to be safe
/// against the day lost when an instant is coarsened to a date; never
/// below the first of the month.
pub fn rough_filter_date(year: i32, month: u8, day: u8) -> (r: CalendarDate)
    ensures
        r.year == year,
        r.month == month,
        r.day == if day <= 1 {
            1u8
        } else {
            (day - 1) as u8
        },
{
    let d = if day <= 1 {
        1
    } else {
        day - 1
    };
    CalendarDate { year, month, day: d }
}

/// The rough papers whose date lies on or after `cutoff`, in their
/// original order.
pub open spec fn spec_filter_rough(v: Seq<RoughPaper>, cutoff: CalendarDate) -> Seq<RoughPaper> {
    v.filter(|p: RoughPaper| spec_date_lex_le(cutoff, p.rough_published))
}

proof fn lemma_filter_rough_split(a: Seq<RoughPaper>, b: Seq<RoughPaper>, cutoff: CalendarDate)
    ensures
        spec_filter_rough(a + b, cutoff) == spec_filter_rough(a, cutoff) + spec_filter_rough(
            b,
            cutoff,
        ),
{
    Seq::<RoughPaper>::filter_distributes_over_add(
        a,
        b,
        |p: RoughPaper| spec_date_lex_le(cutoff, p.rough_published),
    );
}

proof fn lemma_filter_rough_singleton(p: RoughPaper, cutoff: CalendarDate)
    ensures
        spec_filter_rough(seq![p], cutoff) == if spec_date_lex_le(cutoff, p.rough_published) {
            seq![p]
        } else {
            Seq::<RoughPaper>::empty()
        },
{
    reveal_with_fuel(Seq::filter, 2);
    assert(seq![p].drop_last() =~= Seq::<RoughPaper>::empty());
    assert(Seq::<RoughPaper>::empty().push(p) =~= seq![p]);
}

/// Keeps the rough papers dated on or after the prefilter cutoff; the
/// exact per-instant filtering happens later, once details are resolved.
pub fn filter_rough(papers: Vec<RoughPaper>, cutoff: &CalendarDate) -> (r: Vec<RoughPaper>)
    ensures
        r@ == spec_filter_rough(papers@, *cutoff),
{
    let ghost orig = papers@;
    let mut rest = papers;
    let mut out: Vec<RoughPaper> = Vec::new();
    proof {
        assert(orig.take(0) =~= Seq::<RoughPaper>::empty());
        assert(orig.skip(0) =~= orig);
        reveal_with_fuel(Seq::filter, 1);
        assert(out@ =~= spec_filter_rough(orig.take(0), *cutoff));
    }
    while rest.len() > 0
        invariant
            rest@ == orig.skip(orig.len() - rest@.len()),
            rest@.len() <= orig.len(),
            out@ == spec_filter_rough(orig.take(orig.len() - rest@.len()), *cutoff),
        decreases rest@.len(),
    {
        let ghost k = orig.len() - rest@.len();
        let p = rest.remove(0);
        proof {
            assert(p == orig[k]);
            assert(rest@ =~= orig.skip(k + 1));
            assert(orig.take(k + 1) =~= orig.take(k) + seq![orig[k]]);
            lemma_filter_rough_split(orig.take(k), seq![orig[k]], *cutoff);
            lemma_filter_rough_singleton(orig[k], *cutoff);
        }
        if date_le(cutoff, &p.rough_published) {
            out.push(p);
        }
        proof {
            assert(out@ =~= spec_filter_rough(orig.take(k + 1), *cutoff));
        }
    }
    proof {
        assert(orig.take(orig.len() as int) =~= orig);
    }
    out
}

} // verus!
