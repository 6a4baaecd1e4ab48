//! The calendar clock: from seconds since the Unix epoch to a timestamp.
//!
//! The date is computed with integer arithmetic alone. Its correctness is
//! stated against a plain description of the proleptic Gregorian calendar:
//! years of 365 or 366 days, months of 28 to 31, counted from 1970-01-01.

use crate::ascii::{COLON, MINUS, POINT, UPPER_T, UPPER_Z};
use crate::decimal::{
    lemma_padded_exact_width, lemma_padded_reads_back, padded, pow10, push_padded,
};
use crate::escape::all_plain;
use crate::render::{lemma_ascii_is_utf8, string_from_utf8};
use vstd::prelude::*;
use vstd::utf8::encode_utf8;

verus! {

/// True for the leap years of the Gregorian calendar.
pub open spec fn is_leap_year(y: int) -> bool {
    y % 4 == 0 && (y % 100 != 0 || y % 400 == 0)
}

/// The number of days in year `y`.
pub open spec fn days_in_year(y: int) -> int {
    if is_leap_year(y) {
        366
    } else {
        365
    }
}

/// The number of days in month `m` of year `y`.
pub open spec fn days_in_month(y: int, m: int) -> int {
    if m == 2 {
        if is_leap_year(y) {
            29
        } else {
            28
        }
    } else if m == 4 || m == 6 || m == 9 || m == 11 {
        30
    } else {
        31
    }
}

/// The number of days from 1970-01-01 to the first of January of `y`.
pub open spec fn days_before_year(y: int) -> int
    decreases y,
{
    if y <= 1970 {
        0
    } else {
        days_before_year(y - 1) + days_in_year(y - 1)
    }
}

/// The number of days from the first of January of `y` to the first of
/// month `m` of that year.
pub open spec fn days_before_month(y: int, m: int) -> int
    decreases m,
{
    if m <= 1 {
        0
    } else {
        days_before_month(y, m - 1) + days_in_month(y, m - 1)
    }
}

/// True for the dates of the calendar from 1970 on.
pub open spec fn is_date(y: int, m: int, d: int) -> bool {
    y >= 1970 && 1 <= m <= 12 && 1 <= d <= days_in_month(y, m)
}

/// The number of days from 1970-01-01 to the given date.
pub open spec fn day_number(y: int, m: int, d: int) -> int {
    days_before_year(y) + days_before_month(y, m) + (d - 1)
}

/// The date that lies `days` days after 1970-01-01, as (year, month,
/// day). For every day count from zero on there is exactly one.
pub open spec fn date_of_day(days: int) -> (int, int, int) {
    choose|t: (int, int, int)| is_date(t.0, t.1, t.2) && day_number(t.0, t.1, t.2) == days
}

/// The number of leap years among the years 1 to `y`.
spec fn leap_years_through(y: int) -> int {
    y / 4 - y / 100 + y / 400
}

proof fn lemma_days_before_year(y: int)
    requires
        y >= 1970,
    ensures
        days_before_year(y) == 365 * (y - 1970) + leap_years_through(y - 1) - 477,
    decreases y,
{
    if y > 1970 {
        lemma_days_before_year(y - 1);
    }
}

/// The days before each month, month by month.
proof fn lemma_days_before_month(y: int)
    ensures
        days_before_month(y, 1) == 0,
        days_before_month(y, 2) == 31,
        days_before_month(y, 3) == days_in_year(y) - 306,
        days_before_month(y, 4) == days_in_year(y) - 275,
        days_before_month(y, 5) == days_in_year(y) - 245,
        days_before_month(y, 6) == days_in_year(y) - 214,
        days_before_month(y, 7) == days_in_year(y) - 184,
        days_before_month(y, 8) == days_in_year(y) - 153,
        days_before_month(y, 9) == days_in_year(y) - 122,
        days_before_month(y, 10) == days_in_year(y) - 92,
        days_before_month(y, 11) == days_in_year(y) - 61,
        days_before_month(y, 12) == days_in_year(y) - 31,
{
    reveal_with_fuel(days_before_month, 13);
}

proof fn lemma_days_before_year_grows(a: int, b: int)
    requires
        1970 <= a <= b,
    ensures
        days_before_year(a) <= days_before_year(b),
        a < b ==> days_before_year(a) + days_in_year(a) <= days_before_year(b),
    decreases b - a,
{
    if a < b {
        lemma_days_before_year_grows(a, b - 1);
    }
}

/// No two dates have the same day number.
pub proof fn lemma_day_number_unique(y1: int, m1: int, d1: int, y2: int, m2: int, d2: int)
    requires
        is_date(y1, m1, d1),
        is_date(y2, m2, d2),
        day_number(y1, m1, d1) == day_number(y2, m2, d2),
    ensures
        y1 == y2,
        m1 == m2,
        d1 == d2,
{
    lemma_days_before_month(y1);
    lemma_days_before_month(y2);
    if y1 < y2 {
        lemma_days_before_year_grows(y1, y2);
    } else if y2 < y1 {
        lemma_days_before_year_grows(y2, y1);
    }
}

/// A date with day number `days` is the date of that day.
pub proof fn lemma_date_of_day(days: int, y: int, m: int, d: int)
    requires
        is_date(y, m, d),
        day_number(y, m, d) == days,
    ensures
        date_of_day(days) == (y, m, d),
{
    let t = (y, m, d);
    assert(is_date(t.0, t.1, t.2) && day_number(t.0, t.1, t.2) == days);
    let c = date_of_day(days);
    lemma_day_number_unique(c.0, c.1, c.2, y, m, d);
}

/// Within a 400-year era that starts on a first of March, the year of a
/// day and the day's place in that year.
#[verifier::rlimit(30)]
proof fn lemma_year_of_era(doe: u32)
    by (bit_vector)
    requires
        doe <= 146096,
    ensures
        ({
            let yoe = (doe - doe / 1460 + doe / 36524 - doe / 146096) / 365;
            let start = 365 * yoe + yoe / 4 - yoe / 100;
            &&& yoe <= 399
            &&& start <= doe
            &&& ((yoe + 1) % 4 == 0 && ((yoe + 1) % 100 != 0 || (yoe + 1) % 400 == 0) ==> doe
                - start < 366)
            &&& (!((yoe + 1) % 4 == 0 && ((yoe + 1) % 100 != 0 || (yoe + 1) % 400 == 0)) ==> doe
                - start < 365)
        }),
{
}

/// Within a year that starts on a first of March, the month of a day and
/// the day's place in that month.
proof fn lemma_month_of_year(doy: int)
    requires
        0 <= doy <= 365,
    ensures
        ({
            let mp = (5 * doy + 2) / 153;
            &&& 0 <= mp <= 11
            &&& (153 * mp + 2) / 5 <= doy
            &&& doy < (153 * (mp + 1) + 2) / 5
        }),
{
}

/// The days from the first of March of year 0 to the first of March of
/// year `y`.
spec fn days_before_march(y: int) -> int {
    365 * y + leap_years_through(y)
}

/// A year in its era: the days before its first of March are those of the
/// whole eras before it and those of the years of its era before it.
proof fn lemma_days_before_march(era: int, yoe: int)
    requires
        0 <= era,
        0 <= yoe <= 399,
    ensures
        days_before_march(yoe + 400 * era) == 146097 * era + 365 * yoe + yoe / 4 - yoe / 100,
        is_leap_year(yoe + 400 * era + 1) == is_leap_year(yoe + 1),
{
    let y = yoe + 400 * era;
    assert(y / 4 == yoe / 4 + 100 * era);
    assert(y / 100 == yoe / 100 + 4 * era);
    assert(y / 400 == era);
}

/// The days from the first of March to the first of each later month, by
/// the five-month cycle.
proof fn lemma_month_offsets(mp: int)
    requires
        0 <= mp <= 11,
    ensures
        mp == 0 ==> (153 * mp + 2) / 5 == 0 && (153 * (mp + 1) + 2) / 5 == 31,
        mp == 1 ==> (153 * mp + 2) / 5 == 31 && (153 * (mp + 1) + 2) / 5 == 61,
        mp == 2 ==> (153 * mp + 2) / 5 == 61 && (153 * (mp + 1) + 2) / 5 == 92,
        mp == 3 ==> (153 * mp + 2) / 5 == 92 && (153 * (mp + 1) + 2) / 5 == 122,
        mp == 4 ==> (153 * mp + 2) / 5 == 122 && (153 * (mp + 1) + 2) / 5 == 153,
        mp == 5 ==> (153 * mp + 2) / 5 == 153 && (153 * (mp + 1) + 2) / 5 == 184,
        mp == 6 ==> (153 * mp + 2) / 5 == 184 && (153 * (mp + 1) + 2) / 5 == 214,
        mp == 7 ==> (153 * mp + 2) / 5 == 214 && (153 * (mp + 1) + 2) / 5 == 245,
        mp == 8 ==> (153 * mp + 2) / 5 == 245 && (153 * (mp + 1) + 2) / 5 == 275,
        mp == 9 ==> (153 * mp + 2) / 5 == 275 && (153 * (mp + 1) + 2) / 5 == 306,
        mp == 10 ==> (153 * mp + 2) / 5 == 306 && (153 * (mp + 1) + 2) / 5 == 337,
        mp == 11 ==> (153 * mp + 2) / 5 == 337 && (153 * (mp + 1) + 2) / 5 == 367,
{
}

/// The first of March of `ym`, counted from 1970-01-01 in calendar years.
proof fn lemma_first_of_march(ym: int)
    requires
        ym >= 1969,
    ensures
        days_before_year(ym + 1) - 306 == days_before_march(ym) - 719468,
        ym >= 1970 ==> days_before_year(ym) + days_in_year(ym) - 306 == days_before_march(ym)
            - 719468,
{
    lemma_days_before_year(ym + 1);
    assert(days_before_year(ym + 1) == 365 * (ym - 1969) + leap_years_through(ym) - 477);
    if ym >= 1970 {
        assert(days_before_year(ym + 1) == days_before_year(ym) + days_in_year(ym));
    }
}

/// From a year that starts in March to the calendar year: a date given
/// by its March-based year `ym` and zero-based month `mp` is a date of the
/// calendar, and its day number is what the March-based count says.
proof fn lemma_march_based_date(ym: int, doy: int, mp: int)
    requires
        ym >= 1969,
        0 <= mp <= 11,
        (153 * mp + 2) / 5 <= doy < (153 * (mp + 1) + 2) / 5,
        doy < 365 + if is_leap_year(ym + 1) {
            1int
        } else {
            0int
        },
        ym == 1969 ==> doy >= 306,
    ensures
        ({
            let d = doy - (153 * mp + 2) / 5 + 1;
            let m = if mp < 10 {
                mp + 3
            } else {
                mp - 9
            };
            let y = if m <= 2 {
                ym + 1
            } else {
                ym
            };
            &&& is_date(y, m, d)
            &&& day_number(y, m, d) == days_before_march(ym) + doy - 719468
        }),
{
    let offset = (153 * mp + 2) / 5;
    let d = doy - offset + 1;
    lemma_month_offsets(mp);
    lemma_first_of_march(ym);
    if mp < 10 {
        let m = mp + 3;
        lemma_days_before_month(ym);
        assert(ym >= 1970);
        assert(days_before_month(ym, m) == days_in_year(ym) - 306 + offset);
        assert(1 <= d <= days_in_month(ym, m));
        assert(day_number(ym, m, d) == days_before_year(ym) + days_in_year(ym) - 306 + offset + (d
            - 1));
    } else {
        let m = mp - 9;
        let y = ym + 1;
        lemma_days_before_month(y);
        assert(days_before_month(y, m) == offset - 306);
        assert(1 <= d <= days_in_month(y, m));
        assert(day_number(y, m, d) == days_before_year(y) + offset - 306 + (d - 1));
    }
}

/// A day on or after 1970-01-01 lies in the March-based year 1969 or a
/// later one, and in 1969 only in its last two months.
proof fn lemma_march_year_from_1969(ym: int, doy: int)
    requires
        0 <= ym,
        0 <= doy <= 365,
        days_before_march(ym) + doy >= 719468,
    ensures
        ym >= 1969,
        ym == 1969 ==> doy >= 306,
{
}

/// The date of a day by era arithmetic, as [`days_to_ymd`] computes it.
spec fn civil_from_days(days: int) -> (int, int, int) {
    let z = days + 719468;
    let era = z / 146097;
    let doe = z % 146097;
    let yoe = (doe - doe / 1460 + doe / 36524 - doe / 146096) / 365;
    let doy = doe - (365 * yoe + yoe / 4 - yoe / 100);
    let mp = (5 * doy + 2) / 153;
    let d = doy - (153 * mp + 2) / 5 + 1;
    let m = if mp < 10 {
        mp + 3
    } else {
        mp - 9
    };
    let y = yoe + era * 400;
    (
        if m <= 2 {
            y + 1
        } else {
            y
        },
        m,
        d,
    )
}

/// Era arithmetic finds the date of every day from 1970-01-01 on.
proof fn lemma_civil_from_days(days: int)
    requires
        days >= 0,
    ensures
        date_of_day(days) == civil_from_days(days),
        is_date(date_of_day(days).0, date_of_day(days).1, date_of_day(days).2),
        day_number(date_of_day(days).0, date_of_day(days).1, date_of_day(days).2) == days,
{
    let z = days + 719468;
    let era = z / 146097;
    let doe = z % 146097;
    lemma_year_of_era(doe as u32);
    let yoe = (doe - doe / 1460 + doe / 36524 - doe / 146096) / 365;
    let y = yoe + era * 400;
    let doy = doe - (365 * yoe + yoe / 4 - yoe / 100);
    lemma_month_of_year(doy);
    lemma_days_before_march(era, yoe);
    assert(z == days_before_march(y) + doy);
    lemma_march_year_from_1969(y, doy);
    let mp = (5 * doy + 2) / 153;
    lemma_march_based_date(y, doy, mp);
    let date = civil_from_days(days);
    lemma_date_of_day(days, date.0, date.1, date.2);
}

/// Every day from 1970-01-01 on has its date: the one date of the calendar
/// with that day number.
pub proof fn lemma_date_exists(days: int)
    requires
        days >= 0,
    ensures
        is_date(date_of_day(days).0, date_of_day(days).1, date_of_day(days).2),
        day_number(date_of_day(days).0, date_of_day(days).1, date_of_day(days).2) == days,
{
    lemma_civil_from_days(days);
}

/// The date of the day `days` after 1970-01-01, as (year, month, day).
///
/// The day count is shifted to an epoch on a first of March, so that the
/// leap day is the last day of a year. Division by the days of a 400-year
/// era gives the era and the day of the era; the year of the era and the
/// day of the year follow from the day of the era; month and day follow
/// from the day of the year by the five-month cycle of 153 days.
pub fn days_to_ymd(days: u64) -> (date: (u64, u64, u64))
    requires
        days <= u64::MAX - 719468,
    ensures
        (date.0 as int, date.1 as int, date.2 as int) == date_of_day(days as int),
        is_date(date.0 as int, date.1 as int, date.2 as int),
        day_number(date.0 as int, date.1 as int, date.2 as int) == days,
{
    proof {
        lemma_civil_from_days(days as int);
    }
    let z = days + 719468;
    let era = z / 146097;
    let doe = z % 146097;
    proof {
        lemma_year_of_era(doe as u32);
    }
    let yoe = (doe - doe / 1460 + doe / 36524 - doe / 146096) / 365;
    let y = yoe + era * 400;
    let doy = doe - (365 * yoe + yoe / 4 - yoe / 100);
    proof {
        lemma_month_of_year(doy as int);
    }
    let mp = (5 * doy + 2) / 153;
    let d = doy - (153 * mp + 2) / 5 + 1;
    let m = if mp < 10 {
        mp + 3
    } else {
        mp - 9
    };
    let year = if m <= 2 {
        y + 1
    } else {
        y
    };
    (year, m, d)
}

/// Splits seconds since the Unix epoch into (year, month, day, hour,
/// minute, second) in UTC.
pub fn secs_to_datetime(secs: u64) -> (t: (u64, u64, u64, u64, u64, u64))
    ensures
        (t.0 as int, t.1 as int, t.2 as int) == date_of_day(secs as int / 86400),
        t.3 == (secs as int / 3600) % 24,
        t.4 == (secs as int / 60) % 60,
        t.5 == secs as int % 60,
{
    let sec = secs % 60;
    let mins = secs / 60;
    let min = mins % 60;
    let hours = mins / 60;
    let hour = hours % 24;
    let days = hours / 24;
    let (year, month, day) = days_to_ymd(days);
    (year, month, day, hour, min, sec)
}

/// The timestamp of an instant given by whole seconds since the Unix epoch
/// and microseconds: `YYYY-MM-DDTHH:MM:SS.ffffffZ`, in UTC, each number
/// padded with zeros to its width.
pub open spec fn timestamp_text(secs: int, micros: int) -> Seq<u8> {
    let date = date_of_day(secs / 86400);
    padded(date.0 as nat, 4) + seq![MINUS] + padded(date.1 as nat, 2) + seq![MINUS] + padded(
        date.2 as nat,
        2,
    ) + seq![UPPER_T] + padded(((secs / 3600) % 24) as nat, 2) + seq![COLON] + padded(
        ((secs / 60) % 60) as nat,
        2,
    ) + seq![COLON] + padded((secs % 60) as nat, 2) + seq![POINT] + padded(micros as nat, 6)
        + seq![UPPER_Z]
}

/// Appends the timestamp of the instant to `buf`.
pub fn write_timestamp(buf: &mut Vec<u8>, secs: u64, micros: u32)
    ensures
        final(buf)@ == old(buf)@ + timestamp_text(secs as int, micros as int),
{
    let (year, month, day, hour, min, sec) = secs_to_datetime(secs);
    push_padded(buf, year as u128, 4);
    buf.push(MINUS);
    push_padded(buf, month as u128, 2);
    buf.push(MINUS);
    push_padded(buf, day as u128, 2);
    buf.push(UPPER_T);
    push_padded(buf, hour as u128, 2);
    buf.push(COLON);
    push_padded(buf, min as u128, 2);
    buf.push(COLON);
    push_padded(buf, sec as u128, 2);
    buf.push(POINT);
    push_padded(buf, micros as u128, 6);
    buf.push(UPPER_Z);
    assert(buf@ =~= old(buf)@ + timestamp_text(secs as int, micros as int));
}

/// Up to the end of the year 9999, and with fewer than a million
/// microseconds, a timestamp has exactly 27 bytes.
pub proof fn lemma_timestamp_length(secs: int, micros: int)
    requires
        0 <= secs < 253402300800,
        0 <= micros < 1_000_000,
    ensures
        timestamp_text(secs, micros).len() == 27,
{
    let days = secs / 86400;
    let date = date_of_day(days);
    lemma_date_exists(days);
    lemma_days_before_month(date.0);
    if date.0 >= 10000 {
        lemma_days_before_year(10000);
        lemma_days_before_year_grows(10000, date.0);
    }
    assert(pow10(1) == 10 && pow10(2) == 100 && pow10(3) == 1000 && pow10(4) == 10000 && pow10(5)
        == 100000 && pow10(6) == 1000000) by {
        reveal_with_fuel(pow10, 7);
    }
    lemma_padded_exact_width(date.0 as nat, 4);
    lemma_padded_exact_width(date.1 as nat, 2);
    lemma_padded_exact_width(date.2 as nat, 2);
    lemma_padded_exact_width(((secs / 3600) % 24) as nat, 2);
    lemma_padded_exact_width(((secs / 60) % 60) as nat, 2);
    lemma_padded_exact_width((secs % 60) as nat, 2);
    lemma_padded_exact_width(micros as nat, 6);
}

/// Timestamp text is ASCII, and none of its bytes needs an escape inside
/// a JSON string.
pub proof fn lemma_timestamp_text_plain(secs: int, micros: int)
    requires
        secs >= 0,
        micros >= 0,
    ensures
        all_plain(timestamp_text(secs, micros)),
        forall|i: int|
            0 <= i < timestamp_text(secs, micros).len() ==> #[trigger] timestamp_text(
                secs,
                micros,
            )[i] < 0x80,
{
    let date = date_of_day(secs / 86400);
    lemma_padded_reads_back(date.0 as nat, 4);
    lemma_padded_reads_back(date.1 as nat, 2);
    lemma_padded_reads_back(date.2 as nat, 2);
    lemma_padded_reads_back(((secs / 3600) % 24) as nat, 2);
    lemma_padded_reads_back(((secs / 60) % 60) as nat, 2);
    lemma_padded_reads_back((secs % 60) as nat, 2);
    lemma_padded_reads_back(micros as nat, 6);
}

/// The timestamp of an instant, as a string.
pub fn format_unix_time(secs: u64, micros: u32) -> (text: String)
    ensures
        encode_utf8(text@) == timestamp_text(secs as int, micros as int),
{
    let mut buf: Vec<u8> = Vec::new();
    write_timestamp(&mut buf, secs, micros);
    proof {
        assert(buf@ =~= timestamp_text(secs as int, micros as int));
        lemma_timestamp_text_plain(secs as int, micros as int);
        lemma_ascii_is_utf8(buf@);
    }
    string_from_utf8(buf)
}

/// The system clock's point in time, opaque to the verified code.
#[verifier::external_type_specification]
#[verifier::external_body]
pub struct ExSystemTime(std::time::SystemTime);

/// `SystemTime::now` reads the system clock; nothing is claimed of what it
/// reads.
pub assume_specification[ std::time::SystemTime::now ]() -> (t: std::time::SystemTime);

/// The time that a point in time lies after the Unix epoch, as whole
/// seconds and the microseconds of the second begun: what
/// `SystemTime::duration_since` gives for `UNIX_EPOCH`, read with
/// `Duration::as_secs` and `Duration::subsec_micros`. `None` is for a point
/// in time before the epoch.
pub uninterp spec fn elapsed_since_epoch(t: std::time::SystemTime) -> Option<(u64, u32)>;

/// `SystemTime::duration_since` with `UNIX_EPOCH` as the earlier point, and
/// the duration read with `Duration::as_secs` and
/// `Duration::subsec_micros`.
///
/// The result is a function of the point in time alone and so has a name.
/// Of what it is, only this is claimed: the microseconds are fewer than one
/// million, as std documents for `subsec_micros`.
#[verifier::external_body]
fn time_since_epoch(t: std::time::SystemTime) -> (r: Option<(u64, u32)>)
    ensures
        r == elapsed_since_epoch(t),
        r is Some ==> r.unwrap().1 < 1_000_000,
{
    match t.duration_since(std::time::UNIX_EPOCH) {
        Ok(elapsed) => Some((elapsed.as_secs(), elapsed.subsec_micros())),
        Err(_) => None,
    }
}

/// What the clock says when a record is written.
pub enum ClockReading {
    /// The clock is off: the record gets no timestamp.
    Disabled,
    /// An instant: whole seconds since the Unix epoch, and microseconds.
    Unix { secs: u64, micros: u32 },
    /// Text from a clock of the caller's own, taken as it is.
    Custom(String),
}

impl ClockReading {
    /// The timestamp text of this reading, if the clock is on.
    pub open spec fn text(self) -> Option<Seq<u8>> {
        match self {
            ClockReading::Disabled => None,
            ClockReading::Unix { secs, micros } => Some(timestamp_text(secs as int, micros as int)),
            ClockReading::Custom(text) => Some(encode_utf8(text@)),
        }
    }

    /// The instant of a point in time, counted from the Unix epoch. A point
    /// before the epoch counts as the epoch itself.
    pub fn from_system_time(t: std::time::SystemTime) -> (r: ClockReading)
        ensures
            r == instant_after_epoch(elapsed_since_epoch(t)),
            r is Unix,
            r->micros < 1_000_000,
    {
        ClockReading::after_epoch(time_since_epoch(t))
    }

    /// The reading of a clock of the caller's own, from the text that it
    /// wrote. A clock that writes nothing is a clock that is off.
    pub fn from_custom(text: String) -> (r: ClockReading)
        ensures
            text@.len() == 0 ==> r == ClockReading::Disabled,
            text@.len() > 0 ==> r == ClockReading::Custom(text),
    {
        if text.as_str().is_empty() {
            ClockReading::Disabled
        } else {
            ClockReading::Custom(text)
        }
    }

    /// Reads the system clock.
    pub fn now() -> (r: ClockReading)
        ensures
            r is Unix,
            r->micros < 1_000_000,
    {
        ClockReading::from_system_time(std::time::SystemTime::now())
    }

    /// The instant that lies the given seconds and microseconds after the
    /// Unix epoch. `None` is for a point in time before the epoch, which
    /// has no time elapsed since then: it counts as the epoch itself.
    pub fn after_epoch(elapsed: Option<(u64, u32)>) -> (r: ClockReading)
        ensures
            r == instant_after_epoch(elapsed),
    {
        match elapsed {
            Some((secs, micros)) => ClockReading::Unix { secs, micros },
            None => ClockReading::Unix { secs: 0, micros: 0 },
        }
    }
}

/// The instant that lies the given seconds and microseconds after the Unix
/// epoch, and the epoch itself where no time is given.
pub open spec fn instant_after_epoch(elapsed: Option<(u64, u32)>) -> ClockReading {
    match elapsed {
        Some(time) => ClockReading::Unix { secs: time.0, micros: time.1 },
        None => ClockReading::Unix { secs: 0, micros: 0 },
    }
}

/// The timestamp text of a point in time: that of the instant which the
/// point lies after the Unix epoch, and that of the epoch for a point
/// before it.
pub open spec fn timestamp_of(t: std::time::SystemTime) -> Seq<u8> {
    match elapsed_since_epoch(t) {
        Some(elapsed) => timestamp_text(elapsed.0 as int, elapsed.1 as int),
        None => timestamp_text(0, 0),
    }
}

/// The timestamp of a point in time is the timestamp text of its reading.
pub proof fn lemma_timestamp_of_reading(t: std::time::SystemTime)
    ensures
        instant_after_epoch(elapsed_since_epoch(t)).text() == Some(timestamp_of(t)),
{
}

/// The timestamp of a point in time, with microsecond precision, in UTC.
pub fn format_timestamp(t: std::time::SystemTime) -> (text: String)
    ensures
        encode_utf8(text@) == timestamp_of(t),
{
    match time_since_epoch(t) {
        Some((secs, micros)) => format_unix_time(secs, micros),
        None => format_unix_time(0, 0),
    }
}

} // verus!
