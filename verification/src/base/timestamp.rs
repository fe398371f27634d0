//! Capture dates and times as seconds since the first moment of 1970, the
//! form in which a file system keeps the time stamp of a file.
//!
//! Dates are read in the proleptic Gregorian calendar and times as UTC.

use vstd::prelude::*;
use crate::text::{all_digits, chars_of, digit_value, is_digit};

verus! {

/// Whether `y` is a leap year.
pub open spec fn is_leap(y: int) -> bool {
    y % 4 == 0 && (y % 100 != 0 || y % 400 == 0)
}

/// The number of days of the year `y`.
pub open spec fn year_len(y: int) -> int {
    if is_leap(y) {
        366
    } else {
        365
    }
}

/// The number of days of month `m` of the year `y`.
pub open spec fn month_len(y: int, m: int) -> int {
    if m == 2 {
        if is_leap(y) {
            29
        } else {
            28
        }
    } else if m == 4 || m == 6 || m == 9 || m == 11 {
        30
    } else {
        31
    }
}

/// The days from the start of 1970 to the start of the year `y`;
/// negative for earlier years.
pub open spec fn days_to_year(y: int) -> int
    decreases
            (if y >= 1970 {
                y - 1970
            } else {
                1970 - y
            }),
{
    if y == 1970 {
        0
    } else if y > 1970 {
        days_to_year(y - 1) + year_len(y - 1)
    } else {
        days_to_year(y + 1) - year_len(y)
    }
}

/// The days from the start of the year `y` to the start of its month `m`.
pub open spec fn days_to_month(y: int, m: int) -> int
    decreases m,
{
    if m <= 1 {
        0
    } else {
        days_to_month(y, m - 1) + month_len(y, m - 1)
    }
}

/// A day that the calendar has.
pub open spec fn valid_date(y: int, m: int, d: int) -> bool {
    1 <= m <= 12 && 1 <= d <= month_len(y, m)
}

/// A time of day.
pub open spec fn valid_time(h: int, mi: int, s: int) -> bool {
    0 <= h < 24 && 0 <= mi < 60 && 0 <= s < 60
}

/// The seconds from the start of 1970 to the given moment.
pub open spec fn epoch_seconds(y: int, m: int, d: int, h: int, mi: int, s: int) -> int {
    (days_to_year(y) + days_to_month(y, m) + d - 1) * 86400 + h * 3600 + mi * 60 + s
}

/// The number that the two digits at `i` and `i + 1` denote.
pub open spec fn two_digits(s: Seq<char>, i: int) -> int {
    digit_value(s[i]) * 10 + digit_value(s[i + 1])
}

/// The seconds from the start of 1970 to the moment that a date of eight
/// digits (`YYYYMMDD`) and a time of six (`HHMMSS`) denote; None where they
/// are not of that form or denote no moment.
pub open spec fn stamp_seconds(date: Seq<char>, time: Seq<char>) -> Option<int> {
    if date.len() == 8 && all_digits(date) && time.len() == 6 && all_digits(time) {
        let y = two_digits(date, 0) * 100 + two_digits(date, 2);
        let m = two_digits(date, 4);
        let d = two_digits(date, 6);
        let h = two_digits(time, 0);
        let mi = two_digits(time, 2);
        let s = two_digits(time, 4);
        if valid_date(y, m, d) && valid_time(h, mi, s) {
            Some(epoch_seconds(y, m, d, h, mi, s))
        } else {
            None
        }
    } else {
        None
    }
}

/// Whether `y` is a leap year.
fn leap(y: i64) -> (r: bool)
    requires
        0 <= y <= 9999,
    ensures
        r == is_leap(y as int),
{
    y % 4 == 0 && (y % 100 != 0 || y % 400 == 0)
}

/// The number of days of month `m` of the year `y`.
fn days_of_month(y: i64, m: i64) -> (r: i64)
    requires
        0 <= y <= 9999,
    ensures
        r == month_len(y as int, m as int),
        28 <= r <= 31,
{
    if m == 2 {
        if leap(y) {
            29
        } else {
            28
        }
    } else if m == 4 || m == 6 || m == 9 || m == 11 {
        30
    } else {
        31
    }
}

/// The days from the start of 1970 to the start of the year `y`.
fn days_until_year(y: i64) -> (r: i64)
    requires
        0 <= y <= 9999,
    ensures
        r == days_to_year(y as int),
        -366 * 1970 <= r <= 366 * 8029,
{
    let mut days: i64 = 0;
    let mut at: i64 = 1970;
    if y >= 1970 {
        while at < y
            invariant
                1970 <= at <= y <= 9999,
                days == days_to_year(at as int),
                0 <= days <= 366 * (at - 1970),
            decreases y - at,
        {
            days = days + if leap(at) {
                366
            } else {
                365
            };
            at = at + 1;
        }
    } else {
        while at > y
            invariant
                0 <= y <= at <= 1970,
                days == days_to_year(at as int),
                -366 * (1970 - at) <= days <= 0,
            decreases at - y,
        {
            at = at - 1;
            days = days - if leap(at) {
                366
            } else {
                365
            };
        }
    }
    days
}

/// The days from the start of the year `y` to the start of its month `m`.
fn days_until_month(y: i64, m: i64) -> (r: i64)
    requires
        0 <= y <= 9999,
        1 <= m <= 12,
    ensures
        r == days_to_month(y as int, m as int),
        0 <= r <= 31 * 11,
{
    let mut days: i64 = 0;
    let mut at: i64 = 1;
    while at < m
        invariant
            1 <= at <= m <= 12,
            0 <= y <= 9999,
            days == days_to_month(y as int, at as int),
            0 <= days <= 31 * (at - 1),
        decreases m - at,
    {
        days = days + days_of_month(y, at);
        at = at + 1;
    }
    days
}

/// The number that the two digits at `i` and `i + 1` of `v` denote.
fn pair_at(v: &Vec<char>, i: usize) -> (r: i64)
    requires
        i + 1 < v.len(),
        is_digit(v@[i as int]),
        is_digit(v@[i + 1]),
    ensures
        r == two_digits(v@, i as int),
        0 <= r <= 99,
{
    let a: i64 = (v[i] as u8 - 48) as i64;
    let b: i64 = (v[i + 1] as u8 - 48) as i64;
    a * 10 + b
}

/// The seconds from the start of 1970 to the moment that `date`
/// (`YYYYMMDD`) and `time` (`HHMMSS`) denote. None where they are not of
/// that form, or where the calendar has no such day or the day no such
/// time.
pub fn seconds_of(date: &str, time: &str) -> (r: Option<i64>)
    ensures
        match r {
            Some(t) => stamp_seconds(date@, time@) == Some(t as int),
            None => stamp_seconds(date@, time@) is None,
        },
{
    let d = chars_of(date);
    let t = chars_of(time);
    if d.len() != 8 || t.len() != 6 {
        return None;
    }
    let mut i: usize = 0;
    while i < 8
        invariant
            i <= 8,
            d.len() == 8,
            d@ == date@,
            forall|j: int| 0 <= j < i ==> is_digit(#[trigger] d@[j]),
        decreases 8 - i,
    {
        if !(('0' <= d[i]) && (d[i] <= '9')) {
            assert(!is_digit(date@[i as int]));
            return None;
        }
        i = i + 1;
    }
    let mut k: usize = 0;
    while k < 6
        invariant
            k <= 6,
            t.len() == 6,
            t@ == time@,
            forall|j: int| 0 <= j < k ==> is_digit(#[trigger] t@[j]),
        decreases 6 - k,
    {
        if !(('0' <= t[k]) && (t[k] <= '9')) {
            assert(!is_digit(time@[k as int]));
            return None;
        }
        k = k + 1;
    }
    let year = pair_at(&d, 0) * 100 + pair_at(&d, 2);
    let month = pair_at(&d, 4);
    let day = pair_at(&d, 6);
    let hour = pair_at(&t, 0);
    let minute = pair_at(&t, 2);
    let second = pair_at(&t, 4);
    if month < 1 || month > 12 || day < 1 || day > days_of_month(year, month) {
        return None;
    }
    if hour >= 24 || minute >= 60 || second >= 60 {
        return None;
    }
    let days = days_until_year(year) + days_until_month(year, month) + day - 1;
    Some(days * 86400 + hour * 3600 + minute * 60 + second)
}

} // verus!
