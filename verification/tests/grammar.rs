use theory_grabber::dates::CalendarDate;
use theory_grabber::eccc::{
    eccc_rough_day, eccc_rough_month, eccc_rough_date, parse_i32, parse_u32, parse_rough_date,
    parse_date, format_rough_date, eccc_date_time, DateError,
};

#[test]
fn date_partial_parse1() {
    assert_eq!(eccc_rough_day("14th").map(|f| f.1), Ok(14));
    assert_eq!(eccc_rough_day("21st").map(|f| f.1), Ok(21));
    assert_eq!(eccc_rough_day("3rd").map(|f| f.1), Ok(3));
    assert_eq!(eccc_rough_day("22nd").map(|f| f.1), Ok(22));
}

#[test]
fn date_partial_parse2() {
    assert_eq!(eccc_rough_month("November").map(|f| f.1), Ok(11));
}

#[test]
fn date_partial_parse3() {
    assert_eq!(parse_i32("2017").map(|f| f.1), Ok(2017));
}

#[test]
fn date_rough_parse_test1() {
    assert_eq!(
        parse_rough_date(" 16th November 2017").ok(),
        Some(CalendarDate { year: 2017, month: 11, day: 16 })
    );
}

#[test]
fn date_rough_parse_test2() {
    assert_eq!(
        parse_rough_date(" 3rd November 2017").ok(),
        Some(CalendarDate { year: 2017, month: 11, day: 3 })
    );
}

#[test]
fn date_rough_parse_test3() {
    assert_eq!(
        parse_rough_date(" 2nd November 2017").ok(),
        Some(CalendarDate { year: 2017, month: 11, day: 2 })
    );
}

#[test]
fn date_rough_parse_test4() {
    assert_eq!(
        parse_rough_date(" 1st October 2017").ok(),
        Some(CalendarDate { year: 2017, month: 10, day: 1 })
    );
}

#[test]
fn date_rough_parse_test5() {
    assert_eq!(
        parse_rough_date(" 26th September 2017").ok(),
        Some(CalendarDate { year: 2017, month: 9, day: 26 })
    );
}

#[test]
fn date_rough_parse_test6() {
    assert_eq!(
        parse_rough_date(" 30th August 2017").ok(),
        Some(CalendarDate { year: 2017, month: 8, day: 30 })
    );
}

#[test]
fn date_rough_parse_test7() {
    assert_eq!(
        parse_rough_date(" 28th July 2017").ok(),
        Some(CalendarDate { year: 2017, month: 7, day: 28 })
    );
}

#[test]
fn date_rough_parse_test8() {
    assert_eq!(
        parse_rough_date(" 27th June 2017").ok(),
        Some(CalendarDate { year: 2017, month: 6, day: 27 })
    );
}

#[test]
fn date_rough_parse_test9() {
    assert_eq!(
        parse_rough_date(" 28th May 2017").ok(),
        Some(CalendarDate { year: 2017, month: 5, day: 28 })
    );
}

#[test]
fn date_rough_parse_test10() {
    assert_eq!(
        parse_rough_date(" 21st April 2017").ok(),
        Some(CalendarDate { year: 2017, month: 4, day: 21 })
    );
}

#[test]
fn date_rough_parse_test11() {
    assert_eq!(
        parse_rough_date(" 26th March 2017").ok(),
        Some(CalendarDate { year: 2017, month: 3, day: 26 })
    );
}

#[test]
fn date_rough_parse_test12() {
    assert_eq!(
        parse_rough_date(" 23rd February 2017").ok(),
        Some(CalendarDate { year: 2017, month: 2, day: 23 })
    );
}

#[test]
fn date_rough_parse_test13() {
    assert_eq!(
        parse_rough_date(" 19th January 2017").ok(),
        Some(CalendarDate { year: 2017, month: 1, day: 19 })
    );
}

#[test]
fn date_parse_test() {
    // " 16th November 2017 04:24" in Asia/Jerusalem (+2 in November) is
    // 2017-11-16T02:24:00Z.
    assert_eq!(parse_date(" 16th November 2017 04:24").ok(), Some(1510799040));
}

#[test]
fn date_parse_scenario_plus_two_offset() {
    // " 3rd November 2017 04:24" under the +2 source offset is the UTC
    // instant 2017-11-03T02:24:00Z.
    assert_eq!(parse_date(" 3rd November 2017 04:24"), Ok(1509675840));
}

#[test]
fn parse_u32_reads_prefix() {
    assert_eq!(parse_u32("42nd"), Ok((2, 42)));
    assert!(parse_u32("x42").is_err());
    // more digits than a u32 can carry is a parse error, not a clamp
    assert_eq!(parse_u32("99999999999999999999"), Err(DateError::Parse));
}

#[test]
fn rough_date_rejects_bad_text() {
    // missing ordinal suffix
    assert!(parse_rough_date("16 November 2017").is_err());
    // misspelled month
    assert!(parse_rough_date("16th Novembre 2017").is_err());
    // a day that does not exist in its month: no clamping
    assert_eq!(parse_rough_date("32nd January 2017"), Err(DateError::Parse));
    assert_eq!(parse_rough_date("29th February 2017"), Err(DateError::Parse));
    // a leap year does have the 29th
    assert_eq!(
        parse_rough_date("29th February 2016").ok(),
        Some(CalendarDate { year: 2016, month: 2, day: 29 })
    );
}

#[test]
fn date_time_rejects_bad_clock() {
    assert!(parse_date(" 16th November 2017 24:00").is_err());
    assert!(parse_date(" 16th November 2017 04:60").is_err());
    let r = eccc_date_time("16th November 2017 04:24").unwrap();
    assert_eq!(r.1.hour, 4);
    assert_eq!(r.1.minute, 24);
}

#[test]
fn timezone_gap_is_an_error() {
    // Israel's clocks jumped from 02:00 to 03:00 on 24 March 2017: this
    // local time never existed and must not be guessed at.
    assert_eq!(parse_date(" 24th March 2017 02:30"), Err(DateError::Timezone));
    // In the fall-back overlap (29 October 2017, 01:00-02:00 happens
    // twice) the time is ambiguous and equally refused.
    assert_eq!(parse_date(" 29th October 2017 01:30"), Err(DateError::Timezone));
}

#[test]
fn format_round_trips_through_parser() {
    let d = CalendarDate { year: 2017, month: 11, day: 3 };
    let text = format_rough_date(&d);
    assert_eq!(text, "3rd November 2017");
    assert_eq!(parse_rough_date(&text).ok(), Some(d));
    let d2 = CalendarDate { year: 2016, month: 2, day: 29 };
    let text2 = format_rough_date(&d2);
    assert_eq!(text2, "29th February 2016");
    assert_eq!(parse_rough_date(&text2).ok(), Some(d2));
    let d3 = CalendarDate { year: 2021, month: 8, day: 11 };
    assert_eq!(format_rough_date(&d3), "11th August 2021");
    assert_eq!(parse_rough_date(&format_rough_date(&d3)).ok(), Some(d3));
}

#[test]
fn rough_date_production_reports_position() {
    let (next, d) = eccc_rough_date("16th November 2017 tail").unwrap();
    assert_eq!(d, CalendarDate { year: 2017, month: 11, day: 16 });
    assert_eq!(next, 18);
    // no whitespace skipping in the bare production
    assert!(eccc_rough_date(" 16th November 2017").is_err());
}

#[test]
fn trailing_text_is_ignored() {
    // the rough-date grammar reads a prefix: a trailing time is fine
    assert_eq!(
        parse_rough_date(" 3rd November 2017 04:24").ok(),
        Some(CalendarDate { year: 2017, month: 11, day: 3 })
    );
}
