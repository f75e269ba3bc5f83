//! The proleptic Gregorian calendar in UTC: calendar dates between the years
//! 0 and 9999, their day numbers relative to 1970-01-01, weekdays, month
//! names, and second-precision instants.

use vstd::prelude::*;

verus! {

use vstd::string::StringExecFns;
use vstd::string::StrSliceExecFns;
use crate::text::is_digit;
use crate::text::digit_val;
use crate::text::digit_char;

/// A calendar date. `valid()` states the calendar rules.
#[derive(Clone, Copy, PartialEq, Eq, Structural, Debug)]
pub struct Date {
    pub year: u32,
    pub month: u32,
    pub day: u32,
}

pub open spec fn is_leap_year(y: int) -> bool {
    (y % 4 == 0 && y % 100 != 0) || y % 400 == 0
}

pub open spec fn days_in_year(y: int) -> int {
    if is_leap_year(y) { 366 } else { 365 }
}

pub open spec fn days_in_month(y: int, m: int) -> int {
    if m == 2 {
        if is_leap_year(y) { 29 } else { 28 }
    } else if m == 4 || m == 6 || m == 9 || m == 11 {
        30
    } else {
        31
    }
}

pub open spec fn date_valid(y: int, m: int, d: int) -> bool {
    &&& 0 <= y <= 9999
    &&& 1 <= m <= 12
    &&& 1 <= d <= days_in_month(y, m)
}

impl Date {
    pub open spec fn valid(&self) -> bool {
        date_valid(self.year as int, self.month as int, self.day as int)
    }

    /// The day number of this date.
    pub open spec fn day_number(&self) -> int {
        days_of_date(self.year as int, self.month as int, self.day as int)
    }
}

/// Days from 1970-01-01 to January 1 of year `y`; negative before 1970.
pub open spec fn days_before_year(y: int) -> int
    decreases (if y >= 1970 { y - 1970 } else { 1970 - y }),
{
    if y == 1970 {
        0
    } else if y > 1970 {
        days_before_year(y - 1) + days_in_year(y - 1)
    } else {
        days_before_year(y + 1) - days_in_year(y)
    }
}

/// Days from January 1 to the first of month `m` in year `y`.
pub open spec fn days_before_month(y: int, m: int) -> int
    decreases m,
{
    if m <= 1 {
        0
    } else {
        days_before_month(y, m - 1) + days_in_month(y, m - 1)
    }
}

/// The day number of the date `(y, m, d)`: days since 1970-01-01.
pub open spec fn days_of_date(y: int, m: int, d: int) -> int {
    days_before_year(y) + days_before_month(y, m) + d - 1
}

/// The first representable day: 0000-01-01.
pub open spec fn min_day() -> int {
    days_before_year(0)
}

/// The last representable day: 9999-12-31.
pub open spec fn max_day() -> int {
    days_before_year(10000) - 1
}

/// The first representable instant, in seconds.
pub open spec fn min_ts() -> int {
    min_day() * 86400
}

/// The last representable instant: the final second of the last day.
pub open spec fn max_ts() -> int {
    (max_day() + 1) * 86400 - 1
}

/// The day an instant falls on (floor division).
pub open spec fn day_of_ts(ts: int) -> int {
    ts / 86400
}

/// The second of the day of an instant.
pub open spec fn sec_of_ts(ts: int) -> int {
    ts % 86400
}

/// The weekday of a day number, with Monday as 0 (1970-01-01 was a Thursday).
pub open spec fn weekday_of_day(day: int) -> int {
    (day + 3) % 7
}

pub proof fn lemma_days_before_year_unfold(y: int)
    ensures
        days_before_year(y + 1) == days_before_year(y) + days_in_year(y),
{
    if y + 1 > 1970 {
    } else if y + 1 == 1970 {
        assert(days_before_year(1969) == days_before_year(1970) - days_in_year(1969));
    } else {
        assert(days_before_year(y) == days_before_year(y + 1) - days_in_year(y));
    }
}

/// `days_before_year` grows by at least 365 per year.
pub proof fn lemma_days_before_year_mono(y1: int, y2: int)
    requires
        y1 < y2,
    ensures
        days_before_year(y1) + 365 * (y2 - y1) <= days_before_year(y2),
        days_before_year(y2) <= days_before_year(y1) + 366 * (y2 - y1),
    decreases y2 - y1,
{
    if y2 == y1 + 1 {
        lemma_days_before_year_unfold(y1);
    } else {
        lemma_days_before_year_mono(y1, y2 - 1);
        lemma_days_before_year_unfold(y2 - 1);
    }
}

/// Numeric bounds over the representable years.
pub proof fn lemma_days_before_year_bounds(y: int)
    requires
        0 <= y <= 10000,
    ensures
        -721020 <= days_before_year(y) <= 2940000,
{
    if y < 1970 {
        lemma_days_before_year_mono(y, 1970);
        assert(365 * (1970 - y) >= 0);
        assert(366 * (1970 - y) <= 366 * 1970);
        assert(days_before_year(y) >= 0 - 366 * (1970 - y));
    } else if y > 1970 {
        lemma_days_before_year_mono(1970, y);
        assert(366 * (y - 1970) <= 366 * 8030);
    }
}

/// The month offsets add up to the length of the year.
pub proof fn lemma_days_before_month_full(y: int)
    ensures
        days_before_month(y, 13) == days_in_year(y),
{
    reveal_with_fuel(days_before_month, 14);
}

pub proof fn lemma_days_before_month_mono(y: int, m1: int, m2: int)
    requires
        1 <= m1 <= m2,
    ensures
        days_before_month(y, m1) <= days_before_month(y, m2),
    decreases m2 - m1,
{
    if m1 < m2 {
        lemma_days_before_month_mono(y, m1, m2 - 1);
    }
}

/// A valid date's day number lies within its year.
pub proof fn lemma_date_in_year(y: int, m: int, d: int)
    requires
        date_valid(y, m, d),
    ensures
        days_before_year(y) <= days_of_date(y, m, d) < days_before_year(y + 1),
        0 <= days_before_month(y, m) + d - 1 < days_in_year(y),
{
    lemma_days_before_month_mono(y, 1, m);
    assert(days_before_month(y, m) + days_in_month(y, m) == days_before_month(y, m + 1));
    lemma_days_before_month_mono(y, m + 1, 13);
    lemma_days_before_month_full(y);
    lemma_days_before_year_unfold(y);
}

/// Every valid date's day number is representable.
pub proof fn lemma_valid_date_day_range(y: int, m: int, d: int)
    requires
        date_valid(y, m, d),
    ensures
        min_day() <= days_of_date(y, m, d) <= max_day(),
{
    lemma_date_in_year(y, m, d);
    if y > 0 {
        lemma_days_before_year_mono(0, y);
    }
    lemma_days_before_year_mono(y, 10000);
}

/// Two valid dates with one day number are the same date.
pub proof fn lemma_days_of_date_injective(y1: int, m1: int, d1: int, y2: int, m2: int, d2: int)
    requires
        date_valid(y1, m1, d1),
        date_valid(y2, m2, d2),
        days_of_date(y1, m1, d1) == days_of_date(y2, m2, d2),
    ensures
        y1 == y2 && m1 == m2 && d1 == d2,
{
    lemma_date_in_year(y1, m1, d1);
    lemma_date_in_year(y2, m2, d2);
    if y1 < y2 {
        lemma_days_before_year_mono(y1 + 1, y2);
        assert(false);
    } else if y2 < y1 {
        lemma_days_before_year_mono(y2 + 1, y1);
        assert(false);
    }
    if m1 < m2 {
        assert(days_before_month(y1, m1) + days_in_month(y1, m1) == days_before_month(y1, m1 + 1));
        lemma_days_before_month_mono(y1, m1 + 1, m2);
        assert(false);
    } else if m2 < m1 {
        assert(days_before_month(y1, m2) + days_in_month(y1, m2) == days_before_month(y1, m2 + 1));
        lemma_days_before_month_mono(y1, m2 + 1, m1);
        assert(false);
    }
}

/// Every representable day number is the day number of some valid date.
pub proof fn lemma_day_has_date(day: int)
    requires
        min_day() <= day <= max_day(),
    ensures
        exists|t: (int, int, int)|
            date_valid(t.0, t.1, t.2) && days_of_date(t.0, t.1, t.2) == day,
    decreases day - min_day(),
{
    if day == min_day() {
        let w = (0int, 1int, 1int);
        assert(date_valid(w.0, w.1, w.2) && days_of_date(w.0, w.1, w.2) == day);
    } else {
        lemma_day_has_date(day - 1);
        let t = choose|t: (int, int, int)|
            date_valid(t.0, t.1, t.2) && days_of_date(t.0, t.1, t.2) == day - 1;
        let (y, m, d) = t;
        if d < days_in_month(y, m) {
            let w = (y, m, d + 1);
            assert(date_valid(w.0, w.1, w.2) && days_of_date(w.0, w.1, w.2) == day);
        } else if m < 12 {
            assert(days_before_month(y, m) + days_in_month(y, m) == days_before_month(y, m + 1));
            let w = (y, m + 1, 1int);
            assert(date_valid(w.0, w.1, w.2) && days_of_date(w.0, w.1, w.2) == day);
        } else {
            lemma_days_before_month_full(y);
            lemma_days_before_year_unfold(y);
            assert(days_before_month(y, 12) + days_in_month(y, 12) == days_before_month(y, 13));
            if y == 9999 {
                lemma_date_in_year(y, m, d);
                assert(days_of_date(y, m, d) == days_before_year(10000) - 1);
                assert(false);
            }
            let w = (y + 1, 1int, 1int);
            assert(date_valid(w.0, w.1, w.2) && days_of_date(w.0, w.1, w.2) == day);
        }
    }
}

/// The valid date with a given day number (well defined by injectivity).
pub open spec fn day_date(day: int) -> (int, int, int) {
    choose|t: (int, int, int)| date_valid(t.0, t.1, t.2) && days_of_date(t.0, t.1, t.2) == day
}

pub proof fn lemma_day_date(day: int)
    requires
        min_day() <= day <= max_day(),
    ensures
        date_valid(day_date(day).0, day_date(day).1, day_date(day).2),
        days_of_date(day_date(day).0, day_date(day).1, day_date(day).2) == day,
{
    lemma_day_has_date(day);
}

pub fn leap_year(y: u32) -> (r: bool)
    ensures
        r == is_leap_year(y as int),
{
    (y % 4 == 0 && y % 100 != 0) || y % 400 == 0
}

pub fn month_length(y: u32, m: u32) -> (r: u32)
    requires
        1 <= m <= 12,
    ensures
        r == days_in_month(y as int, m as int),
        28 <= r <= 31,
{
    if m == 2 {
        if leap_year(y) { 29 } else { 28 }
    } else if m == 4 || m == 6 || m == 9 || m == 11 {
        30
    } else {
        31
    }
}

fn year_length(y: u32) -> (r: u32)
    ensures
        r == days_in_year(y as int),
{
    if leap_year(y) { 366 } else { 365 }
}

/// The day number of a valid date.
pub fn date_to_days(date: Date) -> (r: i64)
    requires
        date.valid(),
    ensures
        r == date.day_number(),
{
    let y = date.year;
    let mut acc: i64 = 0;
    let mut yr: u32 = 1970;
    if y >= 1970 {
        while yr < y
            invariant
                1970 <= yr <= y <= 9999,
                acc == days_before_year(yr as int),
                0 <= acc <= 2940000,
            decreases y - yr,
        {
            proof {
                lemma_days_before_year_unfold(yr as int);
                lemma_days_before_year_bounds(yr as int + 1);
            }
            acc = acc + year_length(yr) as i64;
            yr = yr + 1;
        }
    } else {
        while yr > y
            invariant
                y <= yr <= 1970,
                acc == days_before_year(yr as int),
                -721020 <= acc <= 0,
            decreases yr - y,
        {
            proof {
                lemma_days_before_year_unfold(yr as int - 1);
                lemma_days_before_year_bounds(yr as int - 1);
            }
            yr = yr - 1;
            acc = acc - year_length(yr) as i64;
        }
    }
    let mut macc: i64 = 0;
    let mut mo: u32 = 1;
    while mo < date.month
        invariant
            1 <= mo <= date.month <= 12,
            macc == days_before_month(date.year as int, mo as int),
            0 <= macc <= 366,
        decreases date.month - mo,
    {
        proof {
            lemma_days_before_month_mono(date.year as int, 1, mo as int + 1);
            lemma_days_before_month_full(date.year as int);
            lemma_days_before_month_mono(date.year as int, mo as int + 1, 13);
        }
        macc = macc + month_length(date.year, mo) as i64;
        mo = mo + 1;
    }
    acc + macc + date.day as i64 - 1
}

/// The valid date with a given day number.
pub fn days_to_date(days: i64) -> (r: Date)
    requires
        min_day() <= days <= max_day(),
    ensures
        r.valid(),
        r.day_number() == days,
{
    proof {
        lemma_days_before_year_bounds(0);
        lemma_days_before_year_bounds(10000);
    }
    let mut yr: u32 = 1970;
    let mut acc: i64 = 0;
    // find the year: days_before_year(yr) <= days < days_before_year(yr + 1)
    if days >= 0 {
        loop
            invariant_except_break
                1970 <= yr <= 9999,
                acc == days_before_year(yr as int),
                acc <= days <= max_day(),
                0 <= acc <= 2940000,
            ensures
                1970 <= yr <= 9999,
                acc == days_before_year(yr as int),
                acc <= days < acc + days_in_year(yr as int),
                0 <= acc <= 2940000,
            decreases max_day() - acc,
        {
            let step = year_length(yr) as i64;
            proof {
                lemma_days_before_year_unfold(yr as int);
                lemma_days_before_year_bounds(yr as int + 1);
            }
            if acc + step > days {
                break;
            }
            proof {
                if yr == 9999 {
                    assert(acc + step == days_before_year(10000));
                    assert(false);
                }
                lemma_days_before_year_mono(1970, yr as int + 1);
            }
            acc = acc + step;
            yr = yr + 1;
        }
    } else {
        while days < acc
            invariant
                0 <= yr <= 1970,
                acc == days_before_year(yr as int),
                days < 0,
                min_day() <= days,
                acc <= 2940000,
                yr < 1970 ==> days < acc + days_in_year(yr as int),
            decreases acc - min_day(),
        {
            proof {
                lemma_days_before_year_unfold(yr as int - 1);
                lemma_days_before_year_bounds(yr as int - 1);
                if yr as int - 1 < 0 {
                    assert(yr == 0);
                    assert(acc == min_day());
                    assert(false);
                }
                if acc - days_in_year(yr as int - 1) <= min_day() - 1 {
                    lemma_days_before_year_mono(0, yr as int - 1);
                    assert(false);
                }
            }
            yr = yr - 1;
            acc = acc - year_length(yr) as i64;
        }
        proof {
            assert(yr != 1970 || acc == 0);
            assert(acc <= days < acc + days_in_year(yr as int));
        }
    }
    // now: acc == days_before_year(yr) <= days < acc + days_in_year(yr)
    let rem: i64 = days - acc;
    let mut mo: u32 = 1;
    let mut macc: i64 = 0;
    loop
        invariant_except_break
            0 <= yr <= 9999,
            1 <= mo <= 12,
            macc == days_before_month(yr as int, mo as int),
            macc <= rem < days_in_year(yr as int),
            0 <= macc <= 366,
        ensures
            0 <= yr <= 9999,
            1 <= mo <= 12,
            macc == days_before_month(yr as int, mo as int),
            macc <= rem < macc + days_in_month(yr as int, mo as int),
        decreases 12 - mo,
    {
        let step = month_length(yr, mo) as i64;
        if macc + step > rem {
            break;
        }
        proof {
            assert(days_before_month(yr as int, mo as int) + days_in_month(yr as int, mo as int)
                == days_before_month(yr as int, mo as int + 1));
            if mo == 12 {
                lemma_days_before_month_full(yr as int);
                assert(false);
            }
            lemma_days_before_month_mono(yr as int, mo as int + 1, 13);
            lemma_days_before_month_full(yr as int);
        }
        macc = macc + step;
        mo = mo + 1;
    }
    let d: i64 = rem - macc + 1;
    Date { year: yr, month: mo, day: d as u32 }
}

/// The weekday of a non-negative day number, Monday as 0.
pub fn weekday_from_days(days: i64) -> (r: i64)
    requires
        0 <= days,
    ensures
        r == weekday_of_day(days as int),
        0 <= r < 7,
{
    let w = ((days as u64 % 7) + 3) % 7;
    proof {
        assert((days as u64 % 7) == (days as int) % 7);
        assert(((days as int % 7) + 3) % 7 == (days as int + 3) % 7) by {
            vstd::arithmetic::div_mod::lemma_add_mod_noop(days as int, 3, 7);
            assert(3int % 7 == 3);
        }
    }
    w as i64
}

/// Splits an instant into its day number and its second of the day.
pub fn split_ts(ts: i64) -> (r: (i64, i64))
    requires
        min_ts() <= ts <= max_ts(),
    ensures
        r.0 == day_of_ts(ts as int),
        r.1 == sec_of_ts(ts as int),
        ts == r.0 * 86400 + r.1,
        0 <= r.1 < 86400,
        min_day() <= r.0 <= max_day(),
{
    proof {
        lemma_days_before_year_bounds(0);
        lemma_days_before_year_bounds(10000);
    }
    let (day, sec): (i64, i64) = if ts >= 0 {
        let q = (ts as u64) / 86400;
        let r = (ts as u64) % 86400;
        (q as i64, r as i64)
    } else {
        let pos = (-(ts + 1)) as u64;
        let q = pos / 86400;
        let day = -(q as i64) - 1;
        let sec = ts - day * 86400;
        (day, sec)
    };
    proof {
        assert(ts == day * 86400 + sec);
        assert(0 <= sec < 86400);
        vstd::arithmetic::div_mod::lemma_fundamental_div_mod_converse(
            ts as int, 86400, day as int, sec as int);
    }
    (day, sec)
}

/// The text shape `YYYY-MM-DD`: ten characters, digits and two dashes.
pub open spec fn date_format(s: Seq<char>) -> bool {
    &&& s.len() == 10
    &&& is_digit(s[0]) && is_digit(s[1]) && is_digit(s[2]) && is_digit(s[3])
    &&& s[4] == '-'
    &&& is_digit(s[5]) && is_digit(s[6])
    &&& s[7] == '-'
    &&& is_digit(s[8]) && is_digit(s[9])
}

pub open spec fn text_year(s: Seq<char>) -> int {
    digit_val(s[0]) * 1000 + digit_val(s[1]) * 100 + digit_val(s[2]) * 10 + digit_val(s[3])
}

pub open spec fn text_month(s: Seq<char>) -> int {
    digit_val(s[5]) * 10 + digit_val(s[6])
}

pub open spec fn text_day(s: Seq<char>) -> int {
    digit_val(s[8]) * 10 + digit_val(s[9])
}

/// Well-formed date text: the right shape, naming a valid calendar date.
pub open spec fn date_text_ok(s: Seq<char>) -> bool {
    date_format(s) && date_valid(text_year(s), text_month(s), text_day(s))
}

/// Reads `YYYY-MM-DD` text as a date; `None` when malformed or not a valid
/// calendar date.
pub fn parse_date(s: &str) -> (r: Option<Date>)
    ensures
        match r {
            Some(d) => date_text_ok(s@) && d.valid() && d.year == text_year(s@)
                && d.month == text_month(s@) && d.day == text_day(s@),
            None => !date_text_ok(s@),
        },
{
    if s.unicode_len() != 10 {
        return None;
    }
    let d0 = match crate::text::char_digit(s.get_char(0)) { Some(d) => d, None => { return None; } };
    let d1 = match crate::text::char_digit(s.get_char(1)) { Some(d) => d, None => { return None; } };
    let d2 = match crate::text::char_digit(s.get_char(2)) { Some(d) => d, None => { return None; } };
    let d3 = match crate::text::char_digit(s.get_char(3)) { Some(d) => d, None => { return None; } };
    if s.get_char(4) != '-' {
        return None;
    }
    let d5 = match crate::text::char_digit(s.get_char(5)) { Some(d) => d, None => { return None; } };
    let d6 = match crate::text::char_digit(s.get_char(6)) { Some(d) => d, None => { return None; } };
    if s.get_char(7) != '-' {
        return None;
    }
    let d8 = match crate::text::char_digit(s.get_char(8)) { Some(d) => d, None => { return None; } };
    let d9 = match crate::text::char_digit(s.get_char(9)) { Some(d) => d, None => { return None; } };
    let y = d0 * 1000 + d1 * 100 + d2 * 10 + d3;
    let m = d5 * 10 + d6;
    let d = d8 * 10 + d9;
    if m < 1 || m > 12 {
        return None;
    }
    if d < 1 || d > month_length(y, m) {
        return None;
    }
    Some(Date { year: y, month: m, day: d })
}

/// The text `YYYY-MM-DD` of a date, zero-padded.
pub open spec fn date_text(y: int, m: int, d: int) -> Seq<char> {
    seq![
        digit_char((y / 1000) % 10),
        digit_char((y / 100) % 10),
        digit_char((y / 10) % 10),
        digit_char(y % 10),
        '-',
        digit_char((m / 10) % 10),
        digit_char(m % 10),
        '-',
        digit_char((d / 10) % 10),
        digit_char(d % 10),
    ]
}

/// The text `HH:MM:SS` of a second of the day.
pub open spec fn time_text(s: int) -> Seq<char> {
    seq![
        digit_char((s / 36000) % 10),
        digit_char((s / 3600) % 10),
        ':',
        digit_char((s / 600) % 6),
        digit_char((s / 60) % 10),
        ':',
        digit_char((s / 10) % 6),
        digit_char(s % 10),
    ]
}

/// The text of an instant: its date, a space, and its time of day.
pub open spec fn datetime_text(ts: int) -> Seq<char> {
    date_text(day_date(day_of_ts(ts)).0, day_date(day_of_ts(ts)).1, day_date(day_of_ts(ts)).2)
        + seq![' '] + time_text(sec_of_ts(ts))
}

fn push_digit(out: &mut String, d: u32)
    requires
        d <= 9,
    ensures
        final(out)@ == old(out)@.push(digit_char(d as int)),
{
    out.append(crate::text::digit_str(d as u64));
    assert(final(out)@ =~= old(out)@.push(digit_char(d as int)));
}

/// Renders a date as `YYYY-MM-DD`.
pub fn fmt_date(date: Date) -> (r: String)
    requires
        date.valid(),
    ensures
        r@ == date_text(date.year as int, date.month as int, date.day as int),
{
    let mut out = String::new();
    let y = date.year;
    let m = date.month;
    let d = date.day;
    push_digit(&mut out, (y / 1000) % 10);
    push_digit(&mut out, (y / 100) % 10);
    push_digit(&mut out, (y / 10) % 10);
    push_digit(&mut out, y % 10);
    proof { reveal_strlit("-"); }
    assert("-"@ =~= seq!['-']);
    out.append("-");
    push_digit(&mut out, (m / 10) % 10);
    push_digit(&mut out, m % 10);
    out.append("-");
    push_digit(&mut out, (d / 10) % 10);
    push_digit(&mut out, d % 10);
    assert(out@ =~= date_text(date.year as int, date.month as int, date.day as int));
    out
}

/// Renders an instant as `YYYY-MM-DD HH:MM:SS`.
pub fn fmt_datetime(ts: i64) -> (r: String)
    requires
        min_ts() <= ts <= max_ts(),
    ensures
        r@ == datetime_text(ts as int),
{
    let (day, sec) = split_ts(ts);
    let date = days_to_date(day);
    proof {
        lemma_day_date(day as int);
        let t = day_date(day as int);
        lemma_days_of_date_injective(
            date.year as int, date.month as int, date.day as int, t.0, t.1, t.2);
    }
    let mut out = fmt_date(date);
    proof { reveal_strlit(" "); }
    assert(" "@ =~= seq![' ']);
    out.append(" ");
    let s = sec as u64;
    push_digit(&mut out, ((s / 36000) % 10) as u32);
    push_digit(&mut out, ((s / 3600) % 10) as u32);
    proof { reveal_strlit(":"); }
    assert(":"@ =~= seq![':']);
    out.append(":");
    push_digit(&mut out, ((s / 600) % 6) as u32);
    push_digit(&mut out, ((s / 60) % 10) as u32);
    out.append(":");
    push_digit(&mut out, ((s / 10) % 6) as u32);
    push_digit(&mut out, (s % 10) as u32);
    assert(out@ =~= datetime_text(ts as int));
    out
}

/// Case-folding for the ASCII range, by code point.
pub open spec fn lower_u32(c: char) -> int {
    if 65 <= c as u32 <= 90 {
        c as u32 + 32
    } else {
        c as u32 as int
    }
}

/// Case-insensitive equality of text, ASCII letters only.
pub open spec fn eq_ci(a: Seq<char>, b: Seq<char>) -> bool {
    a.len() == b.len() && forall|i: int| 0 <= i < a.len() ==> lower_u32(a[i]) == lower_u32(#[trigger] b[i])
}

pub fn eq_ignore_case(a: &str, b: &str) -> (r: bool)
    ensures
        r == eq_ci(a@, b@),
{
    let na = a.unicode_len();
    let nb = b.unicode_len();
    if na != nb {
        return false;
    }
    let mut i: usize = 0;
    while i < na
        invariant
            i <= na,
            na == a@.len(),
            na == b@.len(),
            forall|t: int| 0 <= t < i ==> lower_u32(a@[t]) == lower_u32(#[trigger] b@[t]),
        decreases na - i,
    {
        let ca = a.get_char(i) as u32;
        let cb = b.get_char(i) as u32;
        let la = if 65 <= ca && ca <= 90 { ca + 32 } else { ca };
        let lb = if 65 <= cb && cb <= 90 { cb + 32 } else { cb };
        if la != lb {
            return false;
        }
        i = i + 1;
    }
    true
}

/// The month a name stands for, compared without regard to case.
pub open spec fn month_number_of_name(s: Seq<char>) -> Option<int> {
    if eq_ci(s, "january"@) { Some(1int) }
    else if eq_ci(s, "february"@) { Some(2int) }
    else if eq_ci(s, "march"@) { Some(3int) }
    else if eq_ci(s, "april"@) { Some(4int) }
    else if eq_ci(s, "may"@) { Some(5int) }
    else if eq_ci(s, "june"@) { Some(6int) }
    else if eq_ci(s, "july"@) { Some(7int) }
    else if eq_ci(s, "august"@) { Some(8int) }
    else if eq_ci(s, "september"@) { Some(9int) }
    else if eq_ci(s, "october"@) { Some(10int) }
    else if eq_ci(s, "november"@) { Some(11int) }
    else if eq_ci(s, "december"@) { Some(12int) }
    else { None }
}

/// The display name of a month.
pub open spec fn month_label(m: int) -> Seq<char> {
    if m == 1 { "January"@ }
    else if m == 2 { "February"@ }
    else if m == 3 { "March"@ }
    else if m == 4 { "April"@ }
    else if m == 5 { "May"@ }
    else if m == 6 { "June"@ }
    else if m == 7 { "July"@ }
    else if m == 8 { "August"@ }
    else if m == 9 { "September"@ }
    else if m == 10 { "October"@ }
    else if m == 11 { "November"@ }
    else { "December"@ }
}

/// Reads a month name, without regard to case.
pub fn month_from_name(s: &str) -> (r: Option<u32>)
    ensures
        match r {
            Some(m) => month_number_of_name(s@) == Some(m as int) && 1 <= m <= 12,
            None => month_number_of_name(s@) is None,
        },
{
    if eq_ignore_case(s, "january") { Some(1) }
    else if eq_ignore_case(s, "february") { Some(2) }
    else if eq_ignore_case(s, "march") { Some(3) }
    else if eq_ignore_case(s, "april") { Some(4) }
    else if eq_ignore_case(s, "may") { Some(5) }
    else if eq_ignore_case(s, "june") { Some(6) }
    else if eq_ignore_case(s, "july") { Some(7) }
    else if eq_ignore_case(s, "august") { Some(8) }
    else if eq_ignore_case(s, "september") { Some(9) }
    else if eq_ignore_case(s, "october") { Some(10) }
    else if eq_ignore_case(s, "november") { Some(11) }
    else if eq_ignore_case(s, "december") { Some(12) }
    else { None }
}

/// The display name of a month, as a string.
pub fn month_label_string(m: u32) -> (r: String)
    requires
        1 <= m <= 12,
    ensures
        r@ == month_label(m as int),
{
    if m == 1 { String::from_str("January") }
    else if m == 2 { String::from_str("February") }
    else if m == 3 { String::from_str("March") }
    else if m == 4 { String::from_str("April") }
    else if m == 5 { String::from_str("May") }
    else if m == 6 { String::from_str("June") }
    else if m == 7 { String::from_str("July") }
    else if m == 8 { String::from_str("August") }
    else if m == 9 { String::from_str("September") }
    else if m == 10 { String::from_str("October") }
    else if m == 11 { String::from_str("November") }
    else { String::from_str("December") }
}

} // verus!
