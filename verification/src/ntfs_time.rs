//! Times as the file system keeps them: in steps of 100 nanoseconds since the year 1601.

use crate::text;
use crate::text::decimal_text;
use vstd::prelude::*;

verus! {

broadcast use vstd::string::group_string_axioms;

/// The seconds between the years 1601 and 1970.
pub const NTFS_EPOCH_DIFF: i64 = 11_644_473_600;

/// The quotient without its fraction.
pub open spec fn toward_zero(a: int, b: int) -> int {
    if a >= 0 {
        a / b
    } else {
        -((-a) / b)
    }
}

/// The quotient by ten million without its fraction.
fn seconds_in(ticks: i64) -> (r: i64)
    ensures
        r == toward_zero(ticks as int, 10_000_000),
{
    if ticks >= 0 {
        ticks / 10_000_000
    } else {
        let wide: i128 = -(ticks as i128);
        (-(wide / 10_000_000)) as i64
    }
}

/// A time in seconds since 1970; 0 where it is not known or 0.
///
/// A time of over 63 bits counts as negative.
pub fn ntfs_time_to_unix(ntfs_time: Option<u64>) -> (r: i64)
    ensures
        r == (match ntfs_time {
            Some(t) => if t > 0 {
                toward_zero((t as i64) as int, 10_000_000) - NTFS_EPOCH_DIFF
            } else {
                0
            },
            None => 0,
        }),
{
    match ntfs_time {
        Some(t) => if t > 0 {
            seconds_in(#[verifier::truncate] (t as i64)) - NTFS_EPOCH_DIFF
        } else {
            0
        },
        None => 0,
    }
}

/// The time of a journal record in seconds since 1970.
pub open spec fn unix_seconds(ticks: i64) -> i64 {
    (toward_zero(ticks as int, 10_000_000) - NTFS_EPOCH_DIFF) as i64
}

/// The time of a journal record in seconds since 1970.
pub fn usn_timestamp_to_unix(ticks: i64) -> (r: i64)
    ensures
        r == unix_seconds(ticks),
        r == toward_zero(ticks as int, 10_000_000) - NTFS_EPOCH_DIFF,
{
    seconds_in(ticks) - NTFS_EPOCH_DIFF
}

/// A time in two halves, in seconds since 1970.
pub fn filetime_to_unix(high: u32, low: u32) -> (r: i64)
    ensures
        r == (high * 0x1_0000_0000 + low) / 10_000_000 - NTFS_EPOCH_DIFF,
{
    let ticks: u64 = (high as u64) * 0x1_0000_0000 + (low as u64);
    (ticks / 10_000_000) as i64 - NTFS_EPOCH_DIFF
}

/// Whether a year has a leap day.
pub open spec fn is_leap(year: int) -> bool {
    (year % 4 == 0 && year % 100 != 0) || year % 400 == 0
}

/// Whether a year has a leap day.
pub fn is_leap_year(year: u32) -> (r: bool)
    ensures
        r == is_leap(year as int),
{
    (year % 4 == 0 && year % 100 != 0) || year % 400 == 0
}

/// How many days a year has.
pub open spec fn year_len(year: int) -> int {
    if is_leap(year) {
        366
    } else {
        365
    }
}

/// How many days a month has.
pub open spec fn month_len(year: int, month: int) -> int {
    if month == 2 {
        if is_leap(year) {
            29
        } else {
            28
        }
    } else if month == 4 || month == 6 || month == 9 || month == 11 {
        30
    } else {
        31
    }
}

/// How many days lie between the beginning of 1601 and that of the year.
pub open spec fn days_before_year(year: int) -> int
    decreases year,
{
    if year <= 1601 {
        0
    } else {
        days_before_year(year - 1) + year_len(year - 1)
    }
}

/// How many days lie between the beginning of the year and that of the month.
pub open spec fn days_before_month(year: int, month: int) -> int
    decreases month,
{
    if month <= 1 {
        0
    } else {
        days_before_month(year, month - 1) + month_len(year, month - 1)
    }
}

/// Whether the day, counted from the first of January 1601 as 0, is the given date.
pub open spec fn is_date(days: int, year: int, month: int, day: int) -> bool {
    &&& year >= 1601
    &&& 1 <= month <= 12
    &&& 1 <= day <= month_len(year, month)
    &&& days == days_before_year(year) + days_before_month(year, month) + day - 1
}

/// The year is as long as its months.
pub proof fn months_fill_year(year: int)
    ensures
        days_before_month(year, 13) == year_len(year),
{
    reveal_with_fuel(days_before_month, 14);
}

/// A later year begins later, by at least the years between.
pub proof fn years_ascend(a: int, b: int)
    requires
        1601 <= a < b,
    ensures
        days_before_year(a) + year_len(a) <= days_before_year(b),
    decreases b - a,
{
    if a < b - 1 {
        years_ascend(a, b - 1);
    }
}

/// A later month begins later.
pub proof fn months_ascend(year: int, a: int, b: int)
    requires
        1 <= a < b,
    ensures
        days_before_month(year, a) + month_len(year, a) <= days_before_month(year, b),
    decreases b - a,
{
    if a < b - 1 {
        months_ascend(year, a, b - 1);
    }
}

/// A day has one date.
pub proof fn date_unique(days: int, y: int, m: int, d: int, z: int, n: int, e: int)
    requires
        is_date(days, y, m, d),
        is_date(days, z, n, e),
    ensures
        y == z,
        m == n,
        d == e,
{
    months_fill_year(y);
    months_fill_year(z);
    months_ascend(y, m, 13);
    months_ascend(z, n, 13);
    if m > 1 {
        months_ascend(y, 1, m);
    }
    if n > 1 {
        months_ascend(z, 1, n);
    }
    if y < z {
        years_ascend(y, z);
    } else if z < y {
        years_ascend(z, y);
    } else if m < n {
        months_ascend(y, m, n);
    } else if n < m {
        months_ascend(y, n, m);
    }
}

/// A number in decimal with zeros before it, so that it has at least `width` digits.
pub open spec fn padded(n: nat, width: nat) -> Seq<char> {
    let digits = text::decimal(n);
    if digits.len() < width {
        Seq::new((width - digits.len()) as nat, |i: int| '0') + digits
    } else {
        digits
    }
}

/// Adds a number in decimal with zeros before it.
fn push_padded(r: &mut String, n: u64, width: usize)
    requires
        width <= 4,
    ensures
        final(r)@ == old(r)@ + padded(n as nat, width as nat),
{
    let digits = decimal_text(n);
    let mut count: usize = digits.as_str().unicode_len();
    let ghost zeros = Seq::new(
        if digits@.len() < width {
            (width - digits@.len()) as nat
        } else {
            0
        },
        |i: int| '0',
    );
    let ghost start = count;
    while count < width
        invariant
            start <= count,
            start == digits@.len(),
            count <= width || count == start,
            r@ =~= old(r)@ + Seq::new((count - start) as nat, |i: int| '0'),
        decreases width - count,
    {
        r.push('0');
        count += 1;
    }
    r.append(digits.as_str());
    assert(r@ =~= old(r)@ + padded(n as nat, width as nat));
}

/// The text of a date and a time of day.
pub open spec fn date_text(year: int, month: int, day: int, secs: int) -> Seq<char> {
    padded(year as nat, 4) + seq!['/'] + padded(month as nat, 2) + seq!['/'] + padded(
        day as nat,
        2,
    ) + seq![' '] + padded((secs / 3600) as nat, 2) + seq![':'] + padded(
        (secs % 3600 / 60) as nat,
        2,
    ) + seq![':'] + padded((secs % 60) as nat, 2)
}

/// Whether `shown` is the date and time of day of a time; `N/A` where it is not known or
/// 0.
pub open spec fn is_time_text(timestamp: Option<u64>, shown: Seq<char>) -> bool {
    match timestamp {
        Some(t) => if t > 0 {
            exists|year: int, month: int, day: int|
                #![trigger is_date((t / 10_000_000 / 86400) as int, year, month, day)]
                is_date((t / 10_000_000 / 86400) as int, year, month, day) && shown == date_text(
                    year,
                    month,
                    day,
                    (t / 10_000_000 % 86400) as int,
                )
        } else {
            shown == "N/A"@
        },
        None => shown == "N/A"@,
    }
}

/// Whether a number of seconds from the beginning of 1970 is a time after the beginning of
/// 1601 and before the year 10000.
pub open spec fn is_common_time(seconds: i64) -> bool {
    -NTFS_EPOCH_DIFF < seconds < 253_402_300_800
}

/// A number of seconds from the beginning of 1970 in units of 100 ns since 1601.
pub open spec fn ticks_of(seconds: i64) -> u64 {
    ((seconds + NTFS_EPOCH_DIFF) * 10_000_000) as u64
}

/// Whether `r` is the date and time of day of a number of seconds from the beginning of
/// 1970, where `format` asks for both and the time is a common one.
pub open spec fn is_written(seconds: i64, format: Seq<char>, r: Option<String>) -> bool {
    format == "%Y/%m/%d %H:%M:%S"@ && is_common_time(seconds) ==> (r matches Some(s)
        && is_time_text(Some(ticks_of(seconds)), s@))
}

/// A time is shown in one way.
pub proof fn time_text_unique(timestamp: Option<u64>, a: Seq<char>, b: Seq<char>)
    requires
        is_time_text(timestamp, a),
        is_time_text(timestamp, b),
    ensures
        a == b,
{
    if let Some(t) = timestamp {
        if t > 0 {
            let days = (t / 10_000_000 / 86400) as int;
            let secs = (t / 10_000_000 % 86400) as int;
            let (y, m, d) = choose|y: int, m: int, d: int|
                #![trigger is_date(days, y, m, d)]
                is_date(days, y, m, d) && a == date_text(y, m, d, secs);
            let (z, n, e) = choose|z: int, n: int, e: int|
                #![trigger is_date(days, z, n, e)]
                is_date(days, z, n, e) && b == date_text(z, n, e, secs);
            date_unique(days, y, m, d, z, n, e);
        }
    }
}

/// The date and time of day of a time, as text.
pub fn format_ntfs_time(timestamp: Option<u64>) -> (r: String)
    ensures
        is_time_text(timestamp, r@),
{
    let ts: u64 = match timestamp {
        Some(t) => if t > 0 {
            t
        } else {
            return "N/A".to_string();
        },
        None => {
            return "N/A".to_string();
        },
    };
    let total_secs: u64 = ts / 10_000_000;
    let days: u64 = total_secs / 86400;
    let secs: u64 = total_secs % 86400;
    let mut year: u32 = 1601;
    let mut left: u64 = days;
    loop
        invariant
            1601 <= year <= 1601 + days,
            days <= 0xFFFF_FFFF - 1602,
            days == days_before_year(year as int) + left,
            year - 1601 + left <= days,
        ensures
            days == days_before_year(year as int) + left,
            left < year_len(year as int),
            1601 <= year,
        decreases left,
    {
        let len: u64 = if is_leap_year(year) {
            366
        } else {
            365
        };
        if left < len {
            break ;
        }
        left = left - len;
        year = year + 1;
    }
    let mut month: u32 = 1;
    proof {
        months_fill_year(year as int);
    }
    loop
        invariant
            1 <= month <= 12,
            days == days_before_year(year as int) + days_before_month(
                year as int,
                month as int,
            ) + left,
            days_before_month(year as int, month as int) + left < year_len(year as int),
        ensures
            1 <= month <= 12,
            days == days_before_year(year as int) + days_before_month(
                year as int,
                month as int,
            ) + left,
            left < month_len(year as int, month as int),
        decreases 13 - month,
    {
        let len: u64 = if month == 2 {
            if is_leap_year(year) {
                29
            } else {
                28
            }
        } else if month == 4 || month == 6 || month == 9 || month == 11 {
            30
        } else {
            31
        };
        if left < len {
            break ;
        }
        proof {
            months_fill_year(year as int);
            if month == 12 {
                assert(days_before_month(year as int, 13) == days_before_month(year as int, 12)
                    + month_len(year as int, 12));
            }
        }
        left = left - len;
        month = month + 1;
    }
    let day: u64 = left + 1;
    let mut r = String::new();
    push_padded(&mut r, year as u64, 4);
    r.push('/');
    push_padded(&mut r, month as u64, 2);
    r.push('/');
    push_padded(&mut r, day, 2);
    r.push(' ');
    push_padded(&mut r, secs / 3600, 2);
    r.push(':');
    push_padded(&mut r, secs % 3600 / 60, 2);
    r.push(':');
    push_padded(&mut r, secs % 60, 2);
    assert(is_date(days as int, year as int, month as int, day as int));
    assert(r@ =~= date_text(year as int, month as int, day as int, secs as int));
    r
}

} // verus!
