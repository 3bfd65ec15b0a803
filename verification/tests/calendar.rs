//! Times as text.

use herdr_reviewr::calendar::{epoch_ms_to_iso, parse_iso};

#[test]
fn times_are_written_to_the_second() {
    assert_eq!(epoch_ms_to_iso(0), "1970-01-01T00:00:00Z");
    assert_eq!(epoch_ms_to_iso(999), "1970-01-01T00:00:00Z");
    assert_eq!(epoch_ms_to_iso(1_752_192_000_000), "2025-07-11T00:00:00Z");
    assert_eq!(epoch_ms_to_iso(951_827_696_000), "2000-02-29T12:34:56Z");
    assert_eq!(epoch_ms_to_iso(4_102_444_799_000), "2099-12-31T23:59:59Z");
    assert_eq!(epoch_ms_to_iso(-1), "1969-12-31T23:59:59Z");
    assert_eq!(epoch_ms_to_iso(-2_203_891_200_000), "1900-03-01T00:00:00Z");
    assert_eq!(epoch_ms_to_iso(253_402_300_800_000), "10000-01-01T00:00:00Z");
    assert_eq!(epoch_ms_to_iso(-62_167_219_200_000), "0000-01-01T00:00:00Z");
    assert_eq!(epoch_ms_to_iso(-62_167_219_200_001), "-001-12-31T23:59:59Z");
    assert_eq!(epoch_ms_to_iso(i64::MAX), "292278994-08-17T07:12:55Z");
    assert_eq!(epoch_ms_to_iso(i64::MIN), "-292275055-05-16T16:47:04Z");
}

/// The days of the year, counted month by month.
fn length_of(year: i64, month: i64) -> i64 {
    match month {
        2 if year % 4 == 0 && (year % 100 != 0 || year % 400 == 0) => 29,
        2 => 28,
        4 | 6 | 9 | 11 => 30,
        _ => 31,
    }
}

#[test]
fn every_day_of_eight_centuries_has_its_date() {
    let (mut year, mut month, mut day): (i64, i64, i64) = (1970, 1, 1);
    let mut days: i64 = 0;
    while year < 2800 {
        let iso = epoch_ms_to_iso(days * 86_400_000 + 45_296_789);
        assert_eq!(iso, format!("{year:04}-{month:02}-{day:02}T12:34:56Z"));
        assert_eq!(parse_iso(&iso), Some(days * 86_400 + 45_296));
        days += 1;
        day += 1;
        if day > length_of(year, month) {
            day = 1;
            month += 1;
        }
        if month > 12 {
            month = 1;
            year += 1;
        }
    }
}

#[test]
fn every_day_back_to_before_the_first_year_has_its_date() {
    let (mut year, mut month, mut day): (i64, i64, i64) = (1970, 1, 1);
    let mut days: i64 = 0;
    while year > -1500 {
        let iso = epoch_ms_to_iso(days * 86_400_000);
        assert_eq!(iso, format!("{year:04}-{month:02}-{day:02}T00:00:00Z"));
        days -= 1;
        day -= 1;
        if day == 0 {
            month -= 1;
            if month == 0 {
                month = 12;
                year -= 1;
            }
            day = length_of(year, month);
        }
    }
}

#[test]
fn a_time_reads_back_to_its_second() {
    let mut ms: i64 = i64::MIN;
    while ms < i64::MAX - 9_007_199_254_740_993 {
        let second: i64 = ms.div_euclid(1000);
        assert_eq!(parse_iso(&epoch_ms_to_iso(ms)), Some(second), "{ms}");
        ms += 9_007_199_254_740_993;
    }
    for ms in [i64::MIN, i64::MAX, -1, -999, -1000, -1001, 999, 1000] {
        assert_eq!(parse_iso(&epoch_ms_to_iso(ms)), Some(ms.div_euclid(1000)), "{ms}");
    }
}

#[test]
fn only_a_time_as_it_is_written_reads() {
    assert_eq!(parse_iso("1970-01-01T00:00:00Z"), Some(0));
    assert_eq!(parse_iso("2024-02-29T23:59:59Z"), Some(1_709_251_199));
    assert_eq!(parse_iso("-001-12-31T23:59:59Z"), Some(-62_167_219_201));
    for text in [
        "",
        "Z",
        "1970-01-01",
        "1970-01-01T00:00:00",
        "1970-01-01T00:00:00z",
        "1970-01-01 00:00:00Z",
        "1970-01-01T00:00:00ZZ",
        "01970-01-01T00:00:00Z",
        "970-01-01T00:00:00Z",
        "1970-1-01T00:00:00Z",
        "1970-13-01T00:00:00Z",
        "1970-00-01T00:00:00Z",
        "1970-01-00T00:00:00Z",
        "1970-02-29T00:00:00Z",
        "1900-02-29T00:00:00Z",
        "1970-04-31T00:00:00Z",
        "1970-01-01T24:00:00Z",
        "1970-01-01T00:60:00Z",
        "1970-01-01T00:00:60Z",
        "-000-01-01T00:00:00Z",
        "+1970-01-01T00:00:00Z",
        "--01-01-01T00:00:00Z",
        "19\u{0667}0-01-01T00:00:00Z",
        "9999999999999999999-01-01T00:00:00Z",
    ] {
        assert_eq!(parse_iso(text), None, "{text}");
    }
}

#[test]
fn times_of_four_digit_years_sort_as_text() {
    let mut last = epoch_ms_to_iso(-62_167_219_200_000);
    let mut ms: i64 = -62_167_219_200_000;
    while ms < 253_402_300_799_000 {
        ms = std::cmp::min(ms + 100_000_003_000, 253_402_300_799_000);
        let next = epoch_ms_to_iso(ms);
        assert!(last < next, "{last} {next}");
        last = next;
    }
    assert_eq!(last, "9999-12-31T23:59:59Z");
}
