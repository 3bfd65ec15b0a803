//! Points in time as ISO-8601 text: `YYYY-MM-DDTHH:MM:SSZ`, on the proleptic Gregorian calendar.

use vstd::prelude::*;

use crate::text::{
    all_digits, chars_of, decimal, digits_value, lemma_before_in_context, lemma_digits_in_order,
    lemma_padded_reads_back, lemma_two_digits, padded, push_padded, read_number, same_text,
    text_before,
};

verus! {

/// A date on the calendar.
pub struct Date {
    pub year: int,
    pub month: int,
    pub day: int,
}

/// Whether `year` has a 29 February.
pub open spec fn is_leap(year: int) -> bool {
    year % 4 == 0 && (year % 100 != 0 || year % 400 == 0)
}

/// How many days the month has.
pub open spec fn days_in_month(year: int, month: int) -> int {
    if month == 2 {
        if is_leap(year) {
            29
        } else {
            28
        }
    } else if month == 4 || month == 6 || month == 9 || month == 11 {
        30
    } else {
        31
    }
}

/// How many days of the year lie before the first of the month.
pub open spec fn days_before_month(year: int, month: int) -> int
    decreases month,
{
    if month <= 1 {
        0
    } else {
        days_before_month(year, month - 1) + days_in_month(year, month - 1)
    }
}

/// How many days lie between 1 January 1970 and 1 January of `year`: 365 a year, and one more
/// for each leap year before `year`, of which 477 lie before 1970.
pub open spec fn days_before_year(year: int) -> int {
    365 * (year - 1970) + (year - 1) / 4 - (year - 1) / 100 + (year - 1) / 400 - 477
}

impl Date {
    /// Whether the calendar has this date.
    pub open spec fn valid(self) -> bool {
        &&& 1 <= self.month <= 12
        &&& 1 <= self.day <= days_in_month(self.year, self.month)
    }

    /// How many days lie between 1 January 1970 and this date.
    pub open spec fn day_number(self) -> int {
        days_before_year(self.year) + days_before_month(self.year, self.month) + self.day - 1
    }

    /// The date after this one.
    pub open spec fn next(self) -> Date {
        if self.day < days_in_month(self.year, self.month) {
            Date { day: self.day + 1, ..self }
        } else if self.month < 12 {
            Date { month: self.month + 1, day: 1, ..self }
        } else {
            Date { year: self.year + 1, month: 1, day: 1 }
        }
    }
}

/// The months' offsets in closed form.
proof fn lemma_days_before_month(year: int)
    ensures
        days_before_month(year, 1) == 0,
        days_before_month(year, 2) == 31,
        ({
            let feb = if is_leap(year) {
                29int
            } else {
                28
            };
            &&& days_before_month(year, 3) == 31 + feb
            &&& days_before_month(year, 4) == 62 + feb
            &&& days_before_month(year, 5) == 92 + feb
            &&& days_before_month(year, 6) == 123 + feb
            &&& days_before_month(year, 7) == 153 + feb
            &&& days_before_month(year, 8) == 184 + feb
            &&& days_before_month(year, 9) == 215 + feb
            &&& days_before_month(year, 10) == 245 + feb
            &&& days_before_month(year, 11) == 276 + feb
            &&& days_before_month(year, 12) == 306 + feb
            &&& days_before_month(year, 13) == 337 + feb
        }),
{
    reveal_with_fuel(days_before_month, 13);
}

/// The day number counts the days one by one: 1 January 1970 has number 0, and the date after
/// any date has the next number.
pub proof fn lemma_day_number_counts_days(date: Date)
    requires
        date.valid(),
    ensures
        (Date { year: 1970, month: 1, day: 1 }).day_number() == 0,
        date.next().valid(),
        date.next().day_number() == date.day_number() + 1,
{
    lemma_days_before_month(1970);
    lemma_days_before_month(date.year);
    lemma_days_before_month(date.year + 1);
    lemma_year_length(date.year);
    lemma_months_in_turn(date);
}

proof fn lemma_months_in_turn(date: Date)
    requires
        date.valid(),
        date.month <= 12,
    ensures
        days_before_month(date.year, date.month + 1) == days_before_month(date.year, date.month)
            + days_in_month(date.year, date.month),
{
}

proof fn lemma_step_back(year: int, period: int)
    requires
        period == 4 || period == 100 || period == 400,
    ensures
        (year - 1) / period == year / period - if year % period == 0 {
            1int
        } else {
            0
        },
{
}

/// A year has 365 days, a leap year 366.
proof fn lemma_year_length(year: int)
    ensures
        days_before_year(year + 1) == days_before_year(year) + if is_leap(year) {
            366int
        } else {
            365
        },
{
    lemma_step_back(year, 4);
    lemma_step_back(year, 100);
    lemma_step_back(year, 400);
    lemma_periods_nest(year);
}

proof fn lemma_periods_nest(year: int)
    ensures
        year % 400 == 0 ==> year % 100 == 0,
        year % 100 == 0 ==> year % 4 == 0,
{
}

/// The year within a cycle of 400 years that starts on 1 March, from the day within it.
spec fn year_of_cycle(doe: int) -> int {
    (doe - doe / 1460 + doe / 36524 - doe / 146096) / 365
}

/// The first day of a year within the cycle.
spec fn cycle_year_start(yoe: int) -> int {
    365 * yoe + yoe / 4 - yoe / 100
}

proof fn lemma_year_of_cycle(doe: int)
    requires
        0 <= doe < 146097,
    ensures
        0 <= year_of_cycle(doe) <= 399,
        cycle_year_start(year_of_cycle(doe)) <= doe,
        year_of_cycle(doe) < 399 ==> doe < cycle_year_start(year_of_cycle(doe) + 1),
{
    if doe < 146096 {
        // Day `in_four` of the four years `four` of the century `century`.
        let century = doe / 36524;
        let in_century = doe % 36524;
        let four = in_century / 1461;
        let in_four = in_century % 1461;
        let year = if in_four / 365 < 3 {
            in_four / 365
        } else {
            3
        };
        let passed = 24 * century + four + in_four;
        let carry: int = if passed >= 1460 {
            1
        } else {
            0
        };
        assert(doe == 1460 * (25 * century + four) + passed);
        assert(doe / 1460 == 25 * century + four + carry);
        assert(doe / 146096 == 0);
        let yoe = 100 * century + 4 * four + year;
        lemma_cycle_year_start(century, 4 * four + year);
        assert(0 <= in_four - 365 * year - carry <= 364);
        assert(year_of_cycle(doe) == yoe);
        if 4 * four + year < 99 {
            lemma_cycle_year_start(century, 4 * four + year + 1);
        } else if century < 3 {
            lemma_cycle_year_start(century + 1, 0);
        }
    }
}

proof fn lemma_cycle_year_start(century: int, year: int)
    requires
        0 <= century <= 3,
        0 <= year <= 99,
    ensures
        cycle_year_start(100 * century + year) == 36524 * century + 365 * year + year / 4,
{
}

/// The month, counted from March, of the day `doy` of a year that starts on 1 March.
spec fn month_from_march(doy: int) -> int {
    (5 * doy + 2) / 153
}

/// The date with the day number `n`, computed on years that start on 1 March.
spec fn civil_from_days(n: int) -> Date {
    let z = n + 719468;
    let era = z / 146097;
    let doe = z - era * 146097;
    let yoe = year_of_cycle(doe);
    let doy = doe - cycle_year_start(yoe);
    let mp = month_from_march(doy);
    let month = mp + if mp < 10 {
        3int
    } else {
        -9
    };
    Date {
        year: yoe + era * 400 + if month <= 2 {
            1int
        } else {
            0
        },
        month,
        day: doy - (153 * mp + 2) / 5 + 1,
    }
}

/// Leap years up to a year that is `yoe` years into the cycle `era`.
proof fn lemma_leap_days(era: int, yoe: int)
    requires
        0 <= yoe <= 399,
    ensures
        ({
            let year = yoe + era * 400;
            &&& year / 4 - year / 100 + year / 400 == 97 * era + yoe / 4 - yoe / 100
            &&& is_leap(year) == (yoe % 4 == 0 && (yoe % 100 != 0 || yoe == 0))
            &&& (year - 1) / 4 - (year - 1) / 100 + (year - 1) / 400 == year / 4 - year / 100
                + year / 400 - if is_leap(year) {
                1int
            } else {
                0
            }
        }),
{
    let year = yoe + era * 400;
    assert(year / 4 == 100 * era + yoe / 4);
    assert(year / 100 == 4 * era + yoe / 100);
    assert(year / 400 == era);
    assert(year % 4 == yoe % 4);
    assert(year % 100 == yoe % 100);
    assert(year % 400 == yoe);
    lemma_step_back(year, 4);
    lemma_step_back(year, 100);
    lemma_step_back(year, 400);
}

/// The days of the year before a month counted from March.
spec fn days_from_march(mp: int) -> int {
    (153 * mp + 2) / 5
}

/// The month and day of a day `doy` of a year that starts on 1 March, `march_leap` telling
/// whether that year ends with a 29 February.
proof fn lemma_month_from_march(doy: int, march_leap: bool)
    requires
        0 <= doy <= 364 || (march_leap && doy == 365),
    ensures
        ({
            let mp = month_from_march(doy);
            let day = doy - days_from_march(mp) + 1;
            &&& 0 <= mp <= 11
            &&& 1 <= day <= if mp == 1 || mp == 3 || mp == 6 || mp == 8 {
                30int
            } else if mp < 11 {
                31
            } else if march_leap {
                29
            } else {
                28
            }
        }),
{
}

/// The day number of a date in a year that starts on 1 March.
proof fn lemma_day_number_from_march(year: int, mp: int, day: int)
    requires
        0 <= mp <= 11,
    ensures
        ({
            let date = if mp < 10 {
                Date { year, month: mp + 3, day }
            } else {
                Date { year: year + 1, month: mp - 9, day }
            };
            date.day_number() == 365 * (year - 1970) + (year / 4 - year / 100 + year / 400) - 477
                + 59 + days_from_march(mp) + day - 1
        }),
{
    lemma_days_before_month(year);
    lemma_days_before_month(year + 1);
    lemma_year_length(year);
    assert(days_from_march(0) == 0 && days_from_march(1) == 31 && days_from_march(2) == 61
        && days_from_march(3) == 92 && days_from_march(4) == 122 && days_from_march(5) == 153
        && days_from_march(6) == 184 && days_from_march(7) == 214 && days_from_march(8) == 245
        && days_from_march(9) == 275 && days_from_march(10) == 306 && days_from_march(11) == 337);
    assert(mp == 0 || mp == 1 || mp == 2 || mp == 3 || mp == 4 || mp == 5 || mp == 6 || mp == 7
        || mp == 8 || mp == 9 || mp == 10 || mp == 11);
}

proof fn lemma_civil_from_days(n: int)
    ensures
        civil_from_days(n).valid(),
        civil_from_days(n).day_number() == n,
{
    let z = n + 719468;
    let era = z / 146097;
    let doe = z - era * 146097;
    lemma_year_of_cycle(doe);
    let yoe = year_of_cycle(doe);
    let doy = doe - cycle_year_start(yoe);
    let year = yoe + era * 400;
    let march_leap = is_leap(year + 1);
    assert(0 <= doy <= 364 || (march_leap && doy == 365)) by {
        if yoe < 399 {
            lemma_leap_days(era, yoe + 1);
        } else {
            lemma_leap_days(era + 1, 0);
        }
    }
    lemma_month_from_march(doy, march_leap);
    let mp = month_from_march(doy);
    let day = doy - days_from_march(mp) + 1;
    lemma_day_number_from_march(year, mp, day);
    lemma_leap_days(era, yoe);
}

/// Any two dates with one day number are the same date.
pub proof fn lemma_day_number_is_unique(a: Date, b: Date)
    requires
        a.valid(),
        b.valid(),
        a.day_number() == b.day_number(),
    ensures
        a == b,
{
    lemma_day_within_year(a);
    lemma_day_within_year(b);
    if a.year < b.year {
        lemma_years_grow(a.year + 1, b.year);
    } else if b.year < a.year {
        lemma_years_grow(b.year + 1, a.year);
    }
    lemma_days_before_month(a.year);
}

proof fn lemma_day_within_year(date: Date)
    requires
        date.valid(),
    ensures
        days_before_year(date.year) <= date.day_number() < days_before_year(date.year + 1),
{
    lemma_days_before_month(date.year);
    lemma_year_length(date.year);
}

proof fn lemma_years_grow(a: int, b: int)
    requires
        a <= b,
    ensures
        days_before_year(a) <= days_before_year(b),
{
}

/// The date with the day number `n`.
pub open spec fn date_of_day(n: int) -> Date {
    choose|date: Date| date.valid() && #[trigger] date.day_number() == n
}

/// Every day number has its date.
pub proof fn lemma_every_day_has_a_date(n: int)
    ensures
        date_of_day(n).valid(),
        date_of_day(n).day_number() == n,
{
    lemma_civil_from_days(n);
}

/// The date and the second of the day in ISO-8601.
pub open spec fn iso_text(date: Date, second: int) -> Seq<char> {
    padded(date.year, 4) + seq!['-'] + padded(date.month, 2) + seq!['-'] + padded(date.day, 2)
        + seq!['T'] + padded(second / 3600, 2) + seq![':'] + padded(second % 3600 / 60, 2)
        + seq![':'] + padded(second % 60, 2) + seq!['Z']
}

/// The point in time `second` seconds after the start of 1970, in ISO-8601.
pub open spec fn iso_of_second(second: int) -> Seq<char> {
    iso_text(date_of_day(second / 86400), second % 86400)
}

/// The point in time `ms` milliseconds after the start of 1970, in ISO-8601, to the second.
pub open spec fn iso_of_ms(ms: int) -> Seq<char> {
    iso_of_second(ms / 1000)
}

/// `a` divided by `b`, rounded down.
fn floor_div(a: i64, b: i64) -> (quotient: i64)
    requires
        b > 1,
    ensures
        quotient == a as int / b as int,
{
    assert(i64::MIN <= a as int / b as int <= i64::MAX) by (nonlinear_arith)
        requires
            b > 1,
    ;
    a.checked_div_euclid(b).unwrap()
}

/// What the division rounded down leaves.
fn floor_rem(a: i64, b: i64) -> (rest: i64)
    requires
        b > 1,
    ensures
        rest == a as int % b as int,
        0 <= rest < b,
{
    assert(0 <= (a as int) % (b as int) < (b as int)) by (nonlinear_arith)
        requires
            b > 1,
    ;
    a.checked_rem_euclid(b).unwrap()
}

/// The year, month and day of the date with the day number `days`.
fn civil(days: i64) -> (date: (i64, i64, i64))
    requires
        -200_000_000_000_000 <= days <= 200_000_000_000_000,
    ensures
        (Date { year: date.0 as int, month: date.1 as int, day: date.2 as int }) == date_of_day(
            days as int,
        ),
{
    let z: i64 = days + 719_468;
    let era: i64 = floor_div(z, 146_097);
    let doe: u64 = (z - era * 146_097) as u64;
    proof {
        lemma_year_of_cycle(doe as int);
        lemma_civil_from_days(days as int);
        lemma_every_day_has_a_date(days as int);
        lemma_day_number_is_unique(civil_from_days(days as int), date_of_day(days as int));
    }
    let yoe: u64 = (doe - doe / 1460 + doe / 36_524 - doe / 146_096) / 365;
    let doy: u64 = doe - (365 * yoe + yoe / 4 - yoe / 100);
    let mp: u64 = (5 * doy + 2) / 153;
    let day: i64 = (doy + 1 - (153 * mp + 2) / 5) as i64;
    let month: i64 = if mp < 10 {
        mp as i64 + 3
    } else {
        mp as i64 - 9
    };
    let year: i64 = yoe as i64 + era * 400 + if month <= 2 {
        1
    } else {
        0
    };
    (year, month, day)
}

/// Writes the point in time `second` seconds after the start of 1970 in ISO-8601.
fn second_to_iso(second: i64) -> (iso: String)
    ensures
        iso@ == iso_of_second(second as int),
{
    let days: i64 = floor_div(second, 86_400);
    let tod: i64 = floor_rem(second, 86_400);
    let (year, month, day) = civil(days);
    let hour: i64 = floor_div(tod, 3600);
    let minute: i64 = floor_div(floor_rem(tod, 3600), 60);
    let mut iso = String::new();
    push_padded(&mut iso, year, 4);
    iso.push('-');
    push_padded(&mut iso, month, 2);
    iso.push('-');
    push_padded(&mut iso, day, 2);
    iso.push('T');
    push_padded(&mut iso, hour, 2);
    iso.push(':');
    push_padded(&mut iso, minute, 2);
    iso.push(':');
    push_padded(&mut iso, floor_rem(tod, 60), 2);
    iso.push('Z');
    assert(iso@ =~= iso_of_second(second as int));
    iso
}

/// Writes a time in milliseconds since the start of 1970 as ISO-8601
/// `YYYY-MM-DDTHH:MM:SSZ`, dropping what is below a second.
pub fn epoch_ms_to_iso(ms: i64) -> (iso: String)
    ensures
        iso@ == iso_of_ms(ms as int),
{
    second_to_iso(floor_div(ms, 1000))
}

/// The time, in seconds since the start of 1970, that the text writes in ISO-8601.
pub open spec fn parsed_iso(text: Seq<char>) -> Option<i64> {
    if exists|second: i64| iso_of_second(second as int) == text {
        Some(choose|second: i64| iso_of_second(second as int) == text)
    } else {
        None
    }
}

/// The parts of the text of a time: its last 16 characters are `-MM-DDTHH:MM:SSZ`.
proof fn lemma_iso_parts(second: int)
    ensures
        ({
            let text = iso_of_second(second);
            let date = date_of_day(second / 86400);
            let tod = second % 86400;
            let k = text.len() - 16;
            &&& date.valid()
            &&& date.day_number() == second / 86400
            &&& k >= 4
            &&& text.subrange(0, k) == padded(date.year, 4)
            &&& text.subrange(k + 1, k + 3) == padded(date.month, 2)
            &&& text.subrange(k + 4, k + 6) == padded(date.day, 2)
            &&& text.subrange(k + 7, k + 9) == padded(tod / 3600, 2)
            &&& text.subrange(k + 10, k + 12) == padded(tod % 3600 / 60, 2)
            &&& text.subrange(k + 13, k + 15) == padded(tod % 60, 2)
            &&& text[k] == '-' && text[k + 3] == '-' && text[k + 6] == 'T'
            &&& text[k + 9] == ':' && text[k + 12] == ':'
        }),
{
    let text = iso_of_second(second);
    let date = date_of_day(second / 86400);
    let tod = second % 86400;
    lemma_every_day_has_a_date(second / 86400);
    let year = padded(date.year, 4);
    let k = year.len() as int;
    lemma_padded_reads_back(date.year, 4);
    lemma_two_digits(date.month);
    lemma_two_digits(date.day);
    lemma_two_digits(tod / 3600);
    lemma_two_digits(tod % 3600 / 60);
    lemma_two_digits(tod % 60);
    assert(text.len() == k + 16);
    assert(text.subrange(0, k) =~= year);
    assert(text.subrange(k + 1, k + 3) =~= padded(date.month, 2));
    assert(text.subrange(k + 4, k + 6) =~= padded(date.day, 2));
    assert(text.subrange(k + 7, k + 9) =~= padded(tod / 3600, 2));
    assert(text.subrange(k + 10, k + 12) =~= padded(tod % 3600 / 60, 2));
    assert(text.subrange(k + 13, k + 15) =~= padded(tod % 60, 2));
}

/// Two points in time a second or more apart have different texts.
pub proof fn lemma_iso_is_injective(a: int, b: int)
    requires
        iso_of_second(a) == iso_of_second(b),
    ensures
        a == b,
{
    lemma_iso_parts(a);
    lemma_iso_parts(b);
    let da = date_of_day(a / 86400);
    let db = date_of_day(b / 86400);
    lemma_padded_reads_back(da.year, 4);
    lemma_padded_reads_back(db.year, 4);
    lemma_padded_reads_back(da.month, 2);
    lemma_padded_reads_back(db.month, 2);
    lemma_padded_reads_back(da.day, 2);
    lemma_padded_reads_back(db.day, 2);
    let sa = a % 86400;
    let sb = b % 86400;
    lemma_padded_reads_back(sa / 3600, 2);
    lemma_padded_reads_back(sb / 3600, 2);
    lemma_padded_reads_back(sa % 3600 / 60, 2);
    lemma_padded_reads_back(sb % 3600 / 60, 2);
    lemma_padded_reads_back(sa % 60, 2);
    lemma_padded_reads_back(sb % 60, 2);
    assert(da == db);
    assert(sa == sb);
}

/// Parsing undoes writing: the text of any time in milliseconds parses back to its seconds.
pub proof fn lemma_epoch_ms_round_trips(ms: i64)
    ensures
        parsed_iso(iso_of_ms(ms as int)) == Some((ms as int / 1000) as i64),
{
    let second = (ms as int / 1000) as i64;
    assert(iso_of_second(second as int) == iso_of_ms(ms as int));
    let text = iso_of_ms(ms as int);
    let found = choose|second: i64| iso_of_second(second as int) == text;
    lemma_iso_is_injective(second as int, found as int);
}

/// The years of all times that fit in 64 bits stay well below the limit that the parser reads.
proof fn lemma_year_bound(second: i64)
    ensures
        -1_000_000_000_000 < date_of_day(second as int / 86400).year < 1_000_000_000_000,
{
    lemma_every_day_has_a_date(second as int / 86400);
    let date = date_of_day(second as int / 86400);
    lemma_days_before_month(date.year);
    lemma_day_within_year(date);
}

/// The day number of a date, if the month is one of the twelve.
fn day_number(year: i64, month: u64, day: u64) -> (number: Option<i64>)
    requires
        -1_000_000_000_000 <= year <= 1_000_000_000_000,
        day <= 100,
    ensures
        number == if 1 <= month <= 12 {
            Some(
                (Date {
                    year: year as int,
                    month: month as int,
                    day: day as int,
                }).day_number() as i64,
            )
        } else {
            None
        },
        number matches Some(n) ==> n == (Date {
            year: year as int,
            month: month as int,
            day: day as int,
        }).day_number(),
{
    proof {
        lemma_days_before_month(year as int);
    }
    if month < 1 || month > 12 {
        return None;
    }
    let leap = floor_rem(year, 4) == 0 && (floor_rem(year, 100) != 0 || floor_rem(year, 400) == 0);
    let february: i64 = if leap {
        29
    } else {
        28
    };
    let before: i64 = if month == 1 {
        0
    } else if month == 2 {
        31
    } else if month == 3 {
        31 + february
    } else if month == 4 {
        62 + february
    } else if month == 5 {
        92 + february
    } else if month == 6 {
        123 + february
    } else if month == 7 {
        153 + february
    } else if month == 8 {
        184 + february
    } else if month == 9 {
        215 + february
    } else if month == 10 {
        245 + february
    } else if month == 11 {
        276 + february
    } else {
        306 + february
    };
    let days: i64 = 365 * (year - 1970) + floor_div(year - 1, 4) - floor_div(year - 1, 100)
        + floor_div(year - 1, 400) - 477;
    Some(days + before + day as i64 - 1)
}

/// Whether the digits of the text from `from` up to `to` write `n`.
spec fn writes(text: Seq<char>, from: int, to: int, n: int) -> bool {
    &&& all_digits(text.subrange(from, to))
    &&& digits_value(text.subrange(from, to)) == n
}

/// Whether the numbers in the text, by their positions, are those of the time.
spec fn reads_as(text: Seq<char>, second: i64) -> bool {
    let date = date_of_day(second as int / 86400);
    let tod = second as int % 86400;
    let k = text.len() - 16;
    &&& text.len() >= 20
    &&& (text[0] == '-') == (date.year < 0)
    &&& date.year < 0 ==> writes(text, 1, k, -date.year)
    &&& date.year >= 0 ==> writes(text, 0, k, date.year)
    &&& writes(text, k + 1, k + 3, date.month)
    &&& writes(text, k + 4, k + 6, date.day)
    &&& writes(text, k + 7, k + 9, tod / 3600)
    &&& writes(text, k + 10, k + 12, tod % 3600 / 60)
    &&& writes(text, k + 13, k + 15, tod % 60)
    &&& -1_000_000_000_000 < date.year < 1_000_000_000_000
    &&& date.valid()
    &&& date.day_number() == second as int / 86400
}

proof fn lemma_reads_as(text: Seq<char>, second: i64)
    requires
        text == iso_of_second(second as int),
    ensures
        reads_as(text, second),
{
    lemma_iso_parts(second as int);
    lemma_year_bound(second);
    let date = date_of_day(second as int / 86400);
    let tod = second as int % 86400;
    let k = text.len() - 16;
    lemma_padded_reads_back(date.year, 4);
    lemma_padded_reads_back(date.month, 2);
    lemma_padded_reads_back(date.day, 2);
    lemma_padded_reads_back(tod / 3600, 2);
    lemma_padded_reads_back(tod % 3600 / 60, 2);
    lemma_padded_reads_back(tod % 60, 2);
    let year = padded(date.year, 4);
    assert(year =~= text.subrange(0, k));
    assert(year[0] == text[0]);
    if date.year < 0 {
        assert(year.skip(1) =~= text.subrange(1, k));
    }
}

/// The day number of the date at the start of the text.
fn read_date(chars: &Vec<char>) -> (days: Option<i64>)
    requires
        chars.len() >= 20,
    ensures
        forall|second: i64| #[trigger]
            reads_as(chars@, second) ==> days == Some((second as int / 86400) as i64),
{
    let k: usize = chars.len() - 16;
    let negative = chars[0] == '-';
    let from: usize = if negative {
        1
    } else {
        0
    };
    let year = read_number(chars, from, k, 1_000_000_000_000);
    let month = read_number(chars, k + 1, k + 3, 100);
    let day = read_number(chars, k + 4, k + 6, 100);
    match (year, month, day) {
        (Some(year), Some(month), Some(day)) => {
            let signed: i64 = if negative {
                -(year as i64)
            } else {
                year as i64
            };
            proof {
                assert forall|second: i64| #[trigger] reads_as(chars@, second) implies date_of_day(
                    second as int / 86400,
                ) == (Date { year: signed as int, month: month as int, day: day as int }) by {}
            }
            day_number(signed, month, day)
        },
        _ => None,
    }
}

/// The second of the day at the end of the text.
fn read_time(chars: &Vec<char>) -> (tod: Option<i64>)
    requires
        chars.len() >= 20,
    ensures
        tod matches Some(t) ==> 0 <= t < 366_000,
        forall|second: i64| #[trigger]
            reads_as(chars@, second) ==> tod == Some((second as int % 86400) as i64),
{
    let k: usize = chars.len() - 16;
    let hour = read_number(chars, k + 7, k + 9, 100);
    let minute = read_number(chars, k + 10, k + 12, 100);
    let second = read_number(chars, k + 13, k + 15, 100);
    match (hour, minute, second) {
        (Some(hour), Some(minute), Some(second)) => Some(
            (hour * 3600 + minute * 60 + second) as i64,
        ),
        _ => None,
    }
}

/// The seconds since the start of 1970 that a text reads as, by the positions of its numbers.
fn read_second(chars: &Vec<char>) -> (read: Option<i64>)
    ensures
        forall|second: i64| #[trigger] reads_as(chars@, second) ==> read == Some(second),
{
    if chars.len() < 20 {
        return None;
    }
    match (read_date(chars), read_time(chars)) {
        (Some(days), Some(tod)) => {
            let total: i128 = days as i128 * 86_400 + tod as i128;
            if total < i64::MIN as i128 || total > i64::MAX as i128 {
                None
            } else {
                Some(total as i64)
            }
        },
        _ => None,
    }
}

/// Reads a time written as ISO-8601 `YYYY-MM-DDTHH:MM:SSZ` as seconds since the start of 1970.
pub fn parse_iso(text: &str) -> (second: Option<i64>)
    ensures
        second == parsed_iso(text@),
{
    let chars = chars_of(text);
    proof {
        assert forall|second: i64| iso_of_second(second as int) == text@ implies reads_as(
            chars@,
            second,
        ) by {
            lemma_reads_as(chars@, second);
        }
    }
    let read = read_second(&chars);
    if let Some(second) = read {
        let again = second_to_iso(second);
        if same_text(again.as_str(), text) {
            return Some(second);
        }
    }
    None
}

proof fn lemma_dates_in_order(a: Date, b: Date)
    requires
        a.valid(),
        b.valid(),
        a.day_number() < b.day_number(),
    ensures
        a.year <= b.year,
        a.year == b.year ==> a.month <= b.month,
        a.year == b.year && a.month == b.month ==> a.day < b.day,
{
    lemma_day_within_year(a);
    lemma_day_within_year(b);
    if b.year < a.year {
        lemma_years_grow(b.year + 1, a.year);
    }
    lemma_days_before_month(a.year);
}

proof fn lemma_padded_in_order(a: int, b: int, width: nat)
    requires
        0 <= a < b,
        padded(a, width).len() == padded(b, width).len(),
    ensures
        text_before(padded(a, width), padded(b, width)),
{
    lemma_padded_reads_back(a, width);
    lemma_padded_reads_back(b, width);
    lemma_digits_in_order(padded(a, width), padded(b, width));
}

proof fn lemma_four_digits(year: int)
    requires
        0 <= year <= 9999,
    ensures
        padded(year, 4).len() == 4,
{
    reveal_with_fuel(decimal, 4);
}

/// The fields of the text of a time in the years 0 to 9999.
spec fn has_fields(text: Seq<char>, date: Date, tod: int) -> bool {
    &&& text.len() == 20
    &&& text.subrange(0, 4) == padded(date.year, 4)
    &&& text[4] == '-'
    &&& text.subrange(5, 7) == padded(date.month, 2)
    &&& text[7] == '-'
    &&& text.subrange(8, 10) == padded(date.day, 2)
    &&& text[10] == 'T'
    &&& text.subrange(11, 13) == padded(tod / 3600, 2)
    &&& text[13] == ':'
    &&& text.subrange(14, 16) == padded(tod % 3600 / 60, 2)
    &&& text[16] == ':'
    &&& text.subrange(17, 19) == padded(tod % 60, 2)
}

proof fn lemma_has_fields(second: int)
    requires
        0 <= date_of_day(second / 86400).year <= 9999,
    ensures
        has_fields(iso_of_second(second), date_of_day(second / 86400), second % 86400),
{
    let date = date_of_day(second / 86400);
    let tod = second % 86400;
    lemma_iso_parts(second);
    lemma_four_digits(date.year);
    lemma_two_digits(date.month);
    lemma_two_digits(date.day);
    lemma_two_digits(tod / 3600);
    lemma_two_digits(tod % 3600 / 60);
    lemma_two_digits(tod % 60);
    let text = iso_of_second(second);
    assert(text.subrange(0, text.len() - 16).len() == text.len() - 16);
    assert(text.len() == 20);
}

/// Texts that agree up to a field are ordered as the numbers in the field are.
proof fn lemma_field_decides(left: Seq<char>, right: Seq<char>, from: int, to: int, m: int, n: int)
    requires
        0 <= from < to <= left.len(),
        left.len() == right.len(),
        0 <= m < n,
        forall|i: int| 0 <= i < from ==> left[i] == right[i],
        left.subrange(from, to) == padded(m, (to - from) as nat),
        right.subrange(from, to) == padded(n, (to - from) as nat),
    ensures
        text_before(left, right),
{
    let width = (to - from) as nat;
    assert(left.subrange(from, to).len() == right.subrange(from, to).len());
    lemma_padded_in_order(m, n, width);
    let start = left.take(from);
    lemma_before_in_context(
        start,
        padded(m, width),
        left.skip(to),
        padded(n, width),
        right.skip(to),
    );
    assert(left =~= start + left.subrange(from, to) + left.skip(to));
    assert(right =~= start + right.subrange(from, to) + right.skip(to));
}

/// A field with the same number holds the same characters.
proof fn lemma_field_agrees(left: Seq<char>, right: Seq<char>, from: int, to: int)
    requires
        0 <= from <= to <= left.len(),
        to <= right.len(),
        left.subrange(from, to) == right.subrange(from, to),
    ensures
        forall|i: int| from <= i < to ==> left[i] == right[i],
{
    assert forall|i: int| from <= i < to implies left[i] == right[i] by {
        assert(left.subrange(from, to)[i - from] == left[i]);
        assert(right.subrange(from, to)[i - from] == right[i]);
    }
}

/// In the years 0 to 9999 the texts are ordered as the times are.
pub proof fn lemma_iso_keeps_order(a: int, b: int)
    requires
        a < b,
        0 <= date_of_day(a / 86400).year,
        date_of_day(b / 86400).year <= 9999,
    ensures
        text_before(iso_of_second(a), iso_of_second(b)),
{
    let x = date_of_day(a / 86400);
    let y = date_of_day(b / 86400);
    lemma_every_day_has_a_date(a / 86400);
    lemma_every_day_has_a_date(b / 86400);
    if a / 86400 < b / 86400 {
        lemma_dates_in_order(x, y);
    }
    lemma_has_fields(a);
    lemma_has_fields(b);
    lemma_fields_in_order(iso_of_second(a), iso_of_second(b), x, y, a % 86400, b % 86400);
}

proof fn lemma_fields_in_order(
    left: Seq<char>,
    right: Seq<char>,
    x: Date,
    y: Date,
    s: int,
    t: int,
)
    requires
        has_fields(left, x, s),
        has_fields(right, y, t),
        0 <= x.year <= y.year,
        0 <= x.month,
        0 <= x.day,
        0 <= s,
        x.year == y.year ==> x.month <= y.month,
        x.year == y.year && x.month == y.month ==> x.day <= y.day,
        x == y ==> s < t < 86400,
    ensures
        text_before(left, right),
{
    if x.year != y.year {
        lemma_field_decides(left, right, 0, 4, x.year, y.year);
    } else {
        lemma_field_agrees(left, right, 0, 4);
        if x.month != y.month {
            lemma_field_decides(left, right, 5, 7, x.month, y.month);
        } else {
            lemma_field_agrees(left, right, 5, 7);
            if x.day != y.day {
                lemma_field_decides(left, right, 8, 10, x.day, y.day);
            } else {
                lemma_field_agrees(left, right, 8, 10);
                lemma_times_in_order(left, right, s, t);
            }
        }
    }
}

proof fn lemma_times_in_order(left: Seq<char>, right: Seq<char>, s: int, t: int)
    requires
        left.len() == right.len() == 20,
        forall|i: int| 0 <= i < 11 ==> left[i] == right[i],
        left[13] == right[13],
        left[16] == right[16],
        left.subrange(11, 13) == padded(s / 3600, 2),
        right.subrange(11, 13) == padded(t / 3600, 2),
        left.subrange(14, 16) == padded(s % 3600 / 60, 2),
        right.subrange(14, 16) == padded(t % 3600 / 60, 2),
        left.subrange(17, 19) == padded(s % 60, 2),
        right.subrange(17, 19) == padded(t % 60, 2),
        0 <= s < t < 86400,
    ensures
        text_before(left, right),
{
    if s / 3600 != t / 3600 {
        lemma_field_decides(left, right, 11, 13, s / 3600, t / 3600);
    } else {
        lemma_field_agrees(left, right, 11, 13);
        if s % 3600 / 60 != t % 3600 / 60 {
            lemma_field_decides(left, right, 14, 16, s % 3600 / 60, t % 3600 / 60);
        } else {
            lemma_field_agrees(left, right, 14, 16);
            lemma_field_decides(left, right, 17, 19, s % 60, t % 60);
        }
    }
}

/// The text of a time is its date and its time of the day, field by field: the year with four
/// digits or more, all else with two.
pub proof fn lemma_iso_of_date(date: Date, hour: int, minute: int, second: int, ms: int)
    requires
        date.valid(),
        0 <= hour < 24,
        0 <= minute < 60,
        0 <= second < 60,
        0 <= ms < 1000,
    ensures
        iso_of_ms(
            1000 * (86400 * date.day_number() + 3600 * hour + 60 * minute + second) + ms,
        ) == padded(date.year, 4) + "-"@ + padded(date.month, 2) + "-"@ + padded(date.day, 2)
            + "T"@ + padded(hour, 2) + ":"@ + padded(minute, 2) + ":"@ + padded(second, 2) + "Z"@,
{
    let tod = 3600 * hour + 60 * minute + second;
    let time = 86400 * date.day_number() + tod;
    assert((1000 * time + ms) / 1000 == time);
    assert(time / 86400 == date.day_number() && time % 86400 == tod);
    assert(tod / 3600 == hour && tod % 3600 / 60 == minute && tod % 60 == second);
    lemma_every_day_has_a_date(date.day_number());
    lemma_day_number_is_unique(date, date_of_day(date.day_number()));
    reveal_strlit("-");
    reveal_strlit("T");
    reveal_strlit(":");
    reveal_strlit("Z");
    assert("-"@ =~= seq!['-']);
    assert("T"@ =~= seq!['T']);
    assert(":"@ =~= seq![':']);
    assert("Z"@ =~= seq!['Z']);
}

proof fn lemma_leap_years_repeat(year: int)
    ensures
        is_leap(year + 400) == is_leap(year),
{
    assert((year + 400) % 4 == year % 4);
    assert((year + 400) % 100 == year % 100);
    assert((year + 400) % 400 == year % 400);
}

proof fn lemma_years_repeat(year: int)
    ensures
        days_before_year(year + 400) == days_before_year(year) + 146097,
{
    assert((year + 399) / 4 == (year - 1) / 4 + 100);
    assert((year + 399) / 100 == (year - 1) / 100 + 4);
    assert((year + 399) / 400 == (year - 1) / 400 + 1);
}

proof fn lemma_months_repeat(year: int, month: int)
    ensures
        days_before_month(year + 400, month) == days_before_month(year, month),
    decreases month,
{
    lemma_leap_years_repeat(year);
    if month > 1 {
        lemma_months_repeat(year, month - 1);
    }
}

/// The calendar repeats after 400 years, which are 146097 days.
pub proof fn lemma_calendar_repeats(date: Date)
    requires
        date.valid(),
    ensures
        (Date { year: date.year + 400, ..date }).valid(),
        (Date { year: date.year + 400, ..date }).day_number() == date.day_number() + 146097,
{
    lemma_leap_years_repeat(date.year);
    lemma_years_repeat(date.year);
    lemma_months_repeat(date.year, date.month);
}

/// A text parses as a time where it is the text of that time, and only there.
pub proof fn lemma_parses_what_is_written(text: Seq<char>, second: i64)
    ensures
        parsed_iso(text) == Some(second) <==> text == iso_of_second(second as int),
{
    if text == iso_of_second(second as int) {
        let found = choose|s: i64| iso_of_second(s as int) == text;
        lemma_iso_is_injective(second as int, found as int);
    }
}

}
