//! What holds of the texts of times: they stand in the order of the times.

use crate::ntfs_time;
use crate::ntfs_time::{date_text, is_date, padded};
use crate::text;
use crate::text::{number_rank, text_rank, tie_break, Rank};
use vstd::prelude::*;

verus! {

/// Texts that begin with parts of one length stand to each other as these parts, or where
/// these tie, as the rest.
proof fn rank_of_parts(a: Seq<char>, b: Seq<char>, x: Seq<char>, y: Seq<char>)
    requires
        a.len() == b.len(),
    ensures
        text_rank(a + x, b + y) == tie_break(text_rank(a, b), text_rank(x, y)),
    decreases a.len(),
{
    if a.len() == 0 {
        assert(a + x =~= x);
        assert(b + y =~= y);
    } else {
        rank_of_parts(a.drop_first(), b.drop_first(), x, y);
        assert((a + x).drop_first() =~= a.drop_first() + x);
        assert((b + y).drop_first() =~= b.drop_first() + y);
    }
}

/// A text ties with itself.
proof fn ties_with_itself(a: Seq<char>)
    ensures
        text_rank(a, a) == Rank::Same,
{
    text::text_rank_same(a, a);
}

/// A number below a hundred, in two digits.
proof fn two_digits(n: nat)
    requires
        n < 100,
    ensures
        padded(n, 2) == seq![text::digit_of(n / 10), text::digit_of(n % 10)],
{
    reveal_with_fuel(text::decimal, 2);
    assert(padded(n, 2) =~= seq![text::digit_of(n / 10), text::digit_of(n % 10)]);
}

/// A number of four digits is its two halves.
proof fn four_digits(n: nat)
    requires
        1000 <= n < 10000,
    ensures
        padded(n, 4) == padded(n / 100, 2) + padded(n % 100, 2),
{
    reveal_with_fuel(text::decimal, 4);
    two_digits(n / 100);
    two_digits(n % 100);
    assert(n / 10 / 10 == n / 100 && n % 100 / 10 == n / 10 % 10 && n % 100 % 10 == n % 10);
    assert(padded(n, 4) =~= padded(n / 100, 2) + padded(n % 100, 2));
}

/// Numbers below a hundred stand to each other as their texts.
proof fn two_digits_rank(a: nat, b: nat)
    requires
        a < 100,
        b < 100,
    ensures
        padded(a, 2).len() == 2,
        text_rank(padded(a, 2), padded(b, 2)) == number_rank(a as int, b as int),
{
    two_digits(a);
    two_digits(b);
    reveal_with_fuel(text_rank, 3);
    let (x, y) = (padded(a, 2), padded(b, 2));
    assert(x.drop_first() =~= seq![text::digit_of(a % 10)]);
    assert(y.drop_first() =~= seq![text::digit_of(b % 10)]);
    assert(x.drop_first().drop_first() =~= seq![]);
    assert(y.drop_first().drop_first() =~= seq![]);
    assert(text::digit_of(a / 10) as int == a / 10 + 48);
    assert(text::digit_of(b / 10) as int == b / 10 + 48);
    assert(text::digit_of(a % 10) as int == a % 10 + 48);
    assert(text::digit_of(b % 10) as int == b % 10 + 48);
}

/// Years of four digits stand to each other as their texts.
proof fn years_rank(a: nat, b: nat)
    requires
        1000 <= a < 10000,
        1000 <= b < 10000,
    ensures
        padded(a, 4).len() == 4,
        padded(b, 4).len() == 4,
        text_rank(padded(a, 4), padded(b, 4)) == number_rank(a as int, b as int),
{
    four_digits(a);
    four_digits(b);
    two_digits_rank(a / 100, b / 100);
    two_digits_rank(b / 100, a / 100);
    two_digits_rank(a % 100, b % 100);
    two_digits_rank(b % 100, a % 100);
    rank_of_parts(
        padded(a / 100, 2),
        padded(b / 100, 2),
        padded(a % 100, 2),
        padded(b % 100, 2),
    );
}

/// Adding a mark and a number below a hundred breaks ties.
proof fn rank_with_number(a: Seq<char>, b: Seq<char>, mark: char, m: nat, n: nat)
    requires
        a.len() == b.len(),
        m < 100,
        n < 100,
    ensures
        (a + seq![mark] + padded(m, 2)).len() == (b + seq![mark] + padded(n, 2)).len(),
        text_rank(a + seq![mark] + padded(m, 2), b + seq![mark] + padded(n, 2)) == tie_break(
            text_rank(a, b),
            number_rank(m as int, n as int),
        ),
{
    two_digits_rank(m, n);
    two_digits_rank(n, m);
    ties_with_itself(seq![mark]);
    rank_of_parts(a, b, seq![mark], seq![mark]);
    rank_of_parts(a + seq![mark], b + seq![mark], padded(m, 2), padded(n, 2));
}

/// A later day has a later date.
proof fn dates_ascend(days: int, later: int, y: int, m: int, d: int, z: int, n: int, e: int)
    requires
        is_date(days, y, m, d),
        is_date(later, z, n, e),
        days <= later,
    ensures
        y <= z,
        y == z ==> m <= n,
        y == z && m == n ==> d <= e,
        y == z && m == n && d == e ==> days == later,
{
    ntfs_time::months_fill_year(y);
    ntfs_time::months_fill_year(z);
    ntfs_time::months_ascend(y, m, 13);
    ntfs_time::months_ascend(z, n, 13);
    if n > 1 {
        ntfs_time::months_ascend(z, 1, n);
    }
    if m > 1 {
        ntfs_time::months_ascend(y, 1, m);
    }
    if z < y {
        ntfs_time::years_ascend(z, y);
    } else if y == z && n < m {
        ntfs_time::months_ascend(y, n, m);
    }
}

/// How the texts of two dates and times of day stand to each other.
proof fn date_texts_rank(
    y: int,
    m: int,
    d: int,
    s: int,
    z: int,
    n: int,
    e: int,
    t: int,
)
    requires
        1601 <= y < 10000,
        1601 <= z < 10000,
        0 <= m < 100,
        0 <= n < 100,
        0 <= d < 100,
        0 <= e < 100,
        0 <= s < 86400,
        0 <= t < 86400,
    ensures
        text_rank(date_text(y, m, d, s), date_text(z, n, e, t)) == tie_break(
            number_rank(y, z),
            tie_break(number_rank(m, n), tie_break(number_rank(d, e), number_rank(s, t))),
        ),
{
    years_rank(y as nat, z as nat);
    let (a0, b0) = (padded(y as nat, 4), padded(z as nat, 4));
    rank_with_number(a0, b0, '/', m as nat, n as nat);
    let (a1, b1) = (
        a0 + seq!['/'] + padded(m as nat, 2),
        b0 + seq!['/'] + padded(n as nat, 2),
    );
    rank_with_number(a1, b1, '/', d as nat, e as nat);
    let (a2, b2) = (
        a1 + seq!['/'] + padded(d as nat, 2),
        b1 + seq!['/'] + padded(e as nat, 2),
    );
    rank_with_number(a2, b2, ' ', (s / 3600) as nat, (t / 3600) as nat);
    let (a3, b3) = (
        a2 + seq![' '] + padded((s / 3600) as nat, 2),
        b2 + seq![' '] + padded((t / 3600) as nat, 2),
    );
    rank_with_number(a3, b3, ':', (s % 3600 / 60) as nat, (t % 3600 / 60) as nat);
    let (a4, b4) = (
        a3 + seq![':'] + padded((s % 3600 / 60) as nat, 2),
        b3 + seq![':'] + padded((t % 3600 / 60) as nat, 2),
    );
    rank_with_number(a4, b4, ':', (s % 60) as nat, (t % 60) as nat);
    assert(date_text(y, m, d, s) == a4 + seq![':'] + padded((s % 60) as nat, 2));
    assert(date_text(z, n, e, t) == b4 + seq![':'] + padded((t % 60) as nat, 2));
    assert(tie_break(
        number_rank(s / 3600, t / 3600),
        tie_break(number_rank(s % 3600 / 60, t % 3600 / 60), number_rank(s % 60, t % 60)),
    ) == number_rank(s, t));
}

/// The text of a time up to the year 9999 grows with the time, second by second.
pub proof fn time_texts_ascend(a: u64, b: u64, shown: Seq<char>, later: Seq<char>)
    requires
        0 < a <= b,
        b / 10_000_000 / 86400 < ntfs_time::days_before_year(10000),
        ntfs_time::is_time_text(Some(a), shown),
        ntfs_time::is_time_text(Some(b), later),
    ensures
        text_rank(shown, later) == number_rank(
            (a / 10_000_000) as int,
            (b / 10_000_000) as int,
        ),
{
    let (u, v) = ((a / 10_000_000 / 86400) as int, (b / 10_000_000 / 86400) as int);
    let (s, t) = ((a / 10_000_000 % 86400) as int, (b / 10_000_000 % 86400) as int);
    let (y, m, d) = choose|y: int, m: int, d: int|
        #![trigger is_date(u, y, m, d)]
        is_date(u, y, m, d) && shown == date_text(y, m, d, s);
    let (z, n, e) = choose|z: int, n: int, e: int|
        #![trigger is_date(v, z, n, e)]
        is_date(v, z, n, e) && later == date_text(z, n, e, t);
    assert(a / 10_000_000 <= b / 10_000_000);
    assert(u <= v);
    dates_ascend(u, v, y, m, d, z, n, e);
    if z >= 10000 {
        if z > 10000 {
            ntfs_time::years_ascend(10000, z);
        }
        if n > 1 {
            ntfs_time::months_ascend(z, 1, n);
        }
    }
    date_texts_rank(y, m, d, s, z, n, e, t);
    if u == v {
        ntfs_time::date_unique(u, y, m, d, z, n, e);
    }
}

/// The number that two digits write.
pub open spec fn two_read(s: Seq<char>, at: int) -> int {
    10 * (s[at] as int - '0' as int) + (s[at + 1] as int - '0' as int)
}

/// The text of a time reads back: four digits of the year, then two each of the month, the day, the
/// hour, the minute and the second, with marks between them. The last three are the seconds of the
/// day.
pub proof fn shown_time_reads_back(year: int, month: int, day: int, secs: int)
    requires
        1000 <= year < 10000,
        0 <= month < 100,
        0 <= day < 100,
        0 <= secs < 86400,
    ensures
        ({
            let t = ntfs_time::date_text(year, month, day, secs);
            let (hour, minute, second) = (two_read(t, 11), two_read(t, 14), two_read(t, 17));
            &&& t.len() == 19
            &&& 100 * two_read(t, 0) + two_read(t, 2) == year
            &&& two_read(t, 5) == month
            &&& two_read(t, 8) == day
            &&& 3600 * hour + 60 * minute + second == secs
            &&& 0 <= minute < 60
            &&& 0 <= second < 60
            &&& t[4] == '/' && t[7] == '/' && t[10] == ' ' && t[13] == ':' && t[16] == ':'
        }),
{
    let (h, m, s) = (secs / 3600, secs % 3600 / 60, secs % 60);
    four_digits(year as nat);
    digits_are_read((year / 100) as nat);
    digits_are_read((year % 100) as nat);
    digits_are_read(month as nat);
    digits_are_read(day as nat);
    digits_are_read(h as nat);
    digits_are_read(m as nat);
    digits_are_read(s as nat);
    pieces_stand(
        padded((year / 100) as nat, 2),
        padded((year % 100) as nat, 2),
        padded(month as nat, 2),
        padded(day as nat, 2),
        padded(h as nat, 2),
        padded(m as nat, 2),
        padded(s as nat, 2),
    );
    assert(3600 * h + 60 * m + s == secs);
}

/// Where seven pieces of two characters stand, with marks between them.
proof fn pieces_stand(
    a: Seq<char>,
    b: Seq<char>,
    c: Seq<char>,
    d: Seq<char>,
    e: Seq<char>,
    f: Seq<char>,
    g: Seq<char>,
)
    requires
        a.len() == 2,
        b.len() == 2,
        c.len() == 2,
        d.len() == 2,
        e.len() == 2,
        f.len() == 2,
        g.len() == 2,
    ensures
        ({
            let t = a + b + seq!['/'] + c + seq!['/'] + d + seq![' '] + e + seq![':'] + f + seq![
                ':',
            ] + g;
            &&& t.len() == 19
            &&& two_read(t, 0) == two_read(a, 0)
            &&& two_read(t, 2) == two_read(b, 0)
            &&& two_read(t, 5) == two_read(c, 0)
            &&& two_read(t, 8) == two_read(d, 0)
            &&& two_read(t, 11) == two_read(e, 0)
            &&& two_read(t, 14) == two_read(f, 0)
            &&& two_read(t, 17) == two_read(g, 0)
            &&& t[4] == '/' && t[7] == '/' && t[10] == ' ' && t[13] == ':' && t[16] == ':'
        }),
{
}

proof fn digits_are_read(n: nat)
    requires
        n < 100,
    ensures
        two_read(padded(n, 2), 0) == n,
        padded(n, 2).len() == 2,
{
    two_digits(n);
    assert(text::digit_of(n / 10) as int == n / 10 + 48);
    assert(text::digit_of(n % 10) as int == n % 10 + 48);
}

} // verus!
