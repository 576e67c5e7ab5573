//! The calendar in UTC: the hour, day, week, month and year of a time.

use crate::prune::{Periods, PruneCandidate};
use crate::snapshot::BackupDir;
use vstd::prelude::*;

verus! {

/// The number of whole `unit`s up to `t`, counted from the epoch; units
/// before the epoch have negative numbers.
pub fn floor_div(t: i64, unit: i64) -> (r: i64)
    requires
        unit > 0,
    ensures
        r == t as int / unit as int,
{
    if t >= 0 {
        t / unit
    } else {
        let n: i64 = -(t + 1);
        let q: i64 = n / unit;
        proof {
            let rem = n as int % unit as int;
            vstd::arithmetic::div_mod::lemma_fundamental_div_mod(n as int, unit as int);
            vstd::arithmetic::div_mod::lemma_mod_pos_bound(n as int, unit as int);
            assert(t as int == (-(q as int) - 1) * (unit as int) + (unit as int - rem - 1))
                by (nonlinear_arith)
                requires
                    n as int == unit as int * (q as int) + rem,
                    t as int == -(n as int) - 1,
            ;
            vstd::arithmetic::div_mod::lemma_fundamental_div_mod_converse(
                t as int,
                unit as int,
                -(q as int) - 1,
                unit as int - rem - 1,
            );
            assert(q <= n) by (nonlinear_arith)
                requires
                    n as int == unit as int * (q as int) + rem,
                    rem >= 0,
                    unit >= 1,
                    n >= 0,
            ;
        }
        -q - 1
    }
}

} // verus!

verus! {

/// Seconds in an hour.
pub const SECONDS_PER_HOUR: i64 = 3600;

/// Seconds in a day.
pub const SECONDS_PER_DAY: i64 = 86400;

/// Whether the year `y` has a 29th of February.
pub open spec fn is_leap_year(y: int) -> bool {
    y % 4 == 0 && (y % 100 != 0 || y % 400 == 0)
}

/// How many years before `y` had a 29th of February, counted from the
/// year 1; the count is negative for years before it.
pub open spec fn leap_years_before(y: int) -> int {
    (y - 1) / 4 - (y - 1) / 100 + (y - 1) / 400
}

/// The day on which the year `y` begins; day 0 is the first of January 1970.
pub open spec fn year_start(y: int) -> int {
    365 * (y - 1970) + leap_years_before(y) - leap_years_before(1970)
}

/// How many days of a year lie before its month `m`, for the months 1 to
/// 12; for 13 the length of the year.
pub open spec fn month_offset(m: int, leap: bool) -> int {
    let plain: int = if m <= 1 {
        0
    } else if m == 2 {
        31
    } else if m == 3 {
        59
    } else if m == 4 {
        90
    } else if m == 5 {
        120
    } else if m == 6 {
        151
    } else if m == 7 {
        181
    } else if m == 8 {
        212
    } else if m == 9 {
        243
    } else if m == 10 {
        273
    } else if m == 11 {
        304
    } else if m == 12 {
        334
    } else {
        365
    };
    if m > 2 && leap {
        plain + 1
    } else {
        plain
    }
}

/// The day on which the month `m` of the year `y` begins.
pub open spec fn month_start(y: int, m: int) -> int {
    year_start(y) + month_offset(m, is_leap_year(y))
}

/// The day `d` lies in the year `y`.
pub open spec fn in_year(d: int, y: int) -> bool {
    year_start(y) <= d < year_start(y + 1)
}

/// The day `d` lies in the month `m` of the year `y`.
pub open spec fn in_month(d: int, y: int, m: int) -> bool {
    1 <= m <= 12 && month_start(y, m) <= d < month_start(y, m + 1)
}

/// Going on by one passes a multiple of `d` exactly at the multiples.
proof fn lemma_div_step(x: int, d: int)
    requires
        d > 0,
    ensures
        x / d - (x - 1) / d == if x % d == 0 {
            1int
        } else {
            0int
        },
{
    let q = x / d;
    let r = x % d;
    vstd::arithmetic::div_mod::lemma_fundamental_div_mod(x, d);
    vstd::arithmetic::div_mod::lemma_mod_bound(x, d);
    if r == 0 {
        assert(x - 1 == (q - 1) * d + (d - 1)) by (nonlinear_arith)
            requires
                x == d * q + r,
                r == 0,
        ;
        vstd::arithmetic::div_mod::lemma_fundamental_div_mod_converse(x - 1, d, q - 1, d - 1);
    } else {
        assert(x - 1 == q * d + (r - 1)) by (nonlinear_arith)
            requires
                x == d * q + r,
        ;
        vstd::arithmetic::div_mod::lemma_fundamental_div_mod_converse(x - 1, d, q, r - 1);
    }
}

/// Adding multiples of `d` moves the quotient and keeps the remainder.
proof fn lemma_div_shift(x: int, d: int, m: int)
    requires
        d > 0,
    ensures
        (x + d * m) / d == x / d + m,
        (x + d * m) % d == x % d,
{
    let q = x / d;
    let r = x % d;
    vstd::arithmetic::div_mod::lemma_fundamental_div_mod(x, d);
    vstd::arithmetic::div_mod::lemma_mod_bound(x, d);
    assert(x + d * m == (q + m) * d + r) by (nonlinear_arith)
        requires
            x == d * q + r,
    ;
    vstd::arithmetic::div_mod::lemma_fundamental_div_mod_converse(x + d * m, d, q + m, r);
}

/// A multiple of `a * b` is a multiple of `a`.
proof fn lemma_multiple(x: int, a: int, b: int)
    requires
        a > 0,
        b > 0,
        x % (a * b) == 0,
    ensures
        x % a == 0,
{
    let q = x / (a * b);
    assert(a * b > 0) by (nonlinear_arith)
        requires
            a > 0,
            b > 0,
    ;
    vstd::arithmetic::div_mod::lemma_fundamental_div_mod(x, a * b);
    assert(x == (q * b) * a + 0) by (nonlinear_arith)
        requires
            x == (a * b) * q + 0,
    ;
    vstd::arithmetic::div_mod::lemma_fundamental_div_mod_converse(x, a, q * b, 0);
}

/// A year has 365 days, or 366 if it has a 29th of February; the months
/// of a year fill it.
pub proof fn lemma_year_length(y: int)
    ensures
        year_start(y + 1) - year_start(y) == if is_leap_year(y) {
            366int
        } else {
            365int
        },
        month_start(y, 1) == year_start(y),
        month_start(y, 13) == year_start(y + 1),
{
    lemma_div_step(y, 4);
    lemma_div_step(y, 100);
    lemma_div_step(y, 400);
    if y % 400 == 0 {
        lemma_multiple(y, 100, 4);
    }
    if y % 100 == 0 {
        lemma_multiple(y, 4, 25);
    }
}

/// Four hundred years have 146097 days.
pub proof fn lemma_four_hundred_years(y: int, k: int)
    ensures
        year_start(y + 400 * k) == year_start(y) + 146097 * k,
        is_leap_year(y + 400 * k) == is_leap_year(y),
{
    lemma_div_shift(y - 1, 4, 100 * k);
    lemma_div_shift(y - 1, 100, 4 * k);
    lemma_div_shift(y - 1, 400, k);
    lemma_div_shift(y, 4, 100 * k);
    lemma_div_shift(y, 100, 4 * k);
    lemma_div_shift(y, 400, k);
    assert(y - 1 + 4 * (100 * k) == y + 400 * k - 1);
    assert(y - 1 + 100 * (4 * k) == y + 400 * k - 1);
    assert(y + 4 * (100 * k) == y + 400 * k);
    assert(y + 100 * (4 * k) == y + 400 * k);
}

/// Later years begin later.
pub proof fn lemma_years_in_order(a: int, b: int)
    requires
        a <= b,
    ensures
        year_start(a) <= year_start(b),
        a < b ==> year_start(a + 1) <= year_start(b),
    decreases b - a,
{
    if a < b {
        lemma_years_in_order(a, b - 1);
        lemma_year_length(b - 1);
    }
}

/// A day lies in one year only, and in one month only.
pub proof fn lemma_one_month(d: int, y1: int, m1: int, y2: int, m2: int)
    requires
        in_month(d, y1, m1),
        in_month(d, y2, m2),
    ensures
        y1 == y2,
        m1 == m2,
{
    lemma_year_length(y1);
    lemma_year_length(y2);
    if y1 < y2 {
        lemma_years_in_order(y1, y2);
    }
    if y2 < y1 {
        lemma_years_in_order(y2, y1);
    }
}

/// A day that lies in a month lies in the year of that month, and every
/// day of a year lies in one of its months.
pub proof fn lemma_month_in_year(d: int, y: int, m: int)
    ensures
        in_month(d, y, m) ==> in_year(d, y),
        in_year(d, y) ==> exists|k: int| in_month(d, y, k),
{
    lemma_year_length(y);
    if in_year(d, y) {
        let off = d - year_start(y);
        let leap = is_leap_year(y);
        let k: int = if off < month_offset(2, leap) {
            1
        } else if off < month_offset(3, leap) {
            2
        } else if off < month_offset(4, leap) {
            3
        } else if off < month_offset(5, leap) {
            4
        } else if off < month_offset(6, leap) {
            5
        } else if off < month_offset(7, leap) {
            6
        } else if off < month_offset(8, leap) {
            7
        } else if off < month_offset(9, leap) {
            8
        } else if off < month_offset(10, leap) {
            9
        } else if off < month_offset(11, leap) {
            10
        } else if off < month_offset(12, leap) {
            11
        } else {
            12
        };
        assert(in_month(d, y, k));
    }
}

} // verus!

verus! {

/// The day on which the year 2000 begins.
pub const DAY_OF_2000: i64 = 10957;

/// The days of four hundred years.
pub const DAYS_PER_400_YEARS: i64 = 146097;

/// How many days after the first of January 2000 the year `2000 + n` begins.
fn start_after_2000(n: i64) -> (r: i64)
    requires
        0 <= n <= 400,
    ensures
        r == year_start(2000 + n) - year_start(2000),
        0 <= r <= 366 * n,
        365 * n <= r,
{
    proof {
        lemma_div_shift(n as int + 3, 4, 499);
        lemma_div_shift(n as int + 99, 100, 19);
        lemma_div_shift(n as int + 399, 400, 4);
        assert(n + 3 + 4 * 499 == 2000 + n - 1);
        assert(n + 99 + 100 * 19 == 2000 + n - 1);
        assert(n + 399 + 400 * 4 == 2000 + n - 1);
    }
    365 * n + (n + 3) / 4 - (n + 99) / 100 + (n + 399) / 400
}

/// How many days of a year lie before its month `m`.
fn days_before_month(m: u8, leap: bool) -> (r: i64)
    requires
        1 <= m <= 13,
    ensures
        r == month_offset(m as int, leap),
{
    let plain: i64 = match m {
        1 => 0,
        2 => 31,
        3 => 59,
        4 => 90,
        5 => 120,
        6 => 151,
        7 => 181,
        8 => 212,
        9 => 243,
        10 => 273,
        11 => 304,
        12 => 334,
        _ => 365,
    };
    if m > 2 && leap {
        plain + 1
    } else {
        plain
    }
}

/// The year and the month, from 1 to 12, in which the day `day` lies.
pub fn year_and_month(day: i64) -> (r: (i64, u8))
    requires
        -0x8000_0000_0000 <= day <= 0x8000_0000_0000,
    ensures
        in_month(day as int, r.0 as int, r.1 as int),
        -0x100_0000_0000 <= r.0 <= 0x100_0000_0000,
{
    let since = day - DAY_OF_2000;
    let era = floor_div(since, DAYS_PER_400_YEARS);
    let within = since - era * DAYS_PER_400_YEARS;
    let mut n: i64 = within / 366;
    proof {
        assert(year_start(2000) == DAY_OF_2000);
    }
    let mut begin = start_after_2000(n);
    let mut next = start_after_2000(n + 1);
    while next <= within
        invariant
            0 <= n <= 399,
            0 <= within < DAYS_PER_400_YEARS,
            begin == year_start(2000 + n) - year_start(2000),
            next == year_start(2000 + n + 1) - year_start(2000),
            begin <= within,
        decreases 399 - n,
    {
        proof {
            if n == 399 {
                lemma_four_hundred_years(2000, 1);
            }
        }
        n = n + 1;
        begin = next;
        next = start_after_2000(n + 1);
    }
    let year = 2000 + era * 400 + n;
    let in_era = 2000 + n;
    let leap = in_era % 4 == 0 && (in_era % 100 != 0 || in_era % 400 == 0);
    let of_year = within - begin;
    proof {
        lemma_four_hundred_years(2000 + n, era as int);
        lemma_four_hundred_years(2000 + n + 1, era as int);
        assert(2000 + n + 400 * era == year);
        assert(2000 + n + 1 + 400 * era == year + 1);
        lemma_year_length(year as int);
        assert(leap == is_leap_year(year as int));
        assert(day - year_start(year as int) == of_year);
    }
    let mut m: u8 = 1;
    while m < 12 && days_before_month(m + 1, leap) <= of_year
        invariant
            1 <= m <= 12,
            month_offset(m as int, leap) <= of_year,
        decreases 12 - m,
    {
        m = m + 1;
    }
    (year, m)
}

} // verus!

verus! {

/// The periods are those of the time `time`, in seconds since the epoch,
/// by the calendar in UTC. Hours and days are counted from the epoch,
/// weeks from the Monday before it; the year is the year of the
/// calendar, and months are counted twelve to the year.
pub open spec fn are_utc_periods(time: int, p: Periods) -> bool {
    &&& p.hour == time / 3600
    &&& p.day == time / 86400
    &&& p.week == (time / 86400 + 3) / 7
    &&& in_year(time / 86400, p.year as int)
    &&& in_month(time / 86400, p.year as int, p.month - 12 * p.year + 1)
}

impl Periods {
    /// The periods of a time by the calendar in UTC.
    pub fn utc(time: i64) -> (r: Periods)
        ensures
            are_utc_periods(time as int, r),
    {
        let hour = floor_div(time, SECONDS_PER_HOUR);
        let day = floor_div(time, SECONDS_PER_DAY);
        let week = floor_div(day + 3, 7);
        let (year, month) = year_and_month(day);
        proof {
            lemma_month_in_year(day as int, year as int, month as int);
        }
        Periods { hour, day, week, month: year * 12 + (month as i64 - 1), year }
    }
}

impl PruneCandidate {
    /// The snapshot with the periods of its time by the calendar in UTC.
    pub fn utc(backup: BackupDir, protected: bool) -> (r: PruneCandidate)
        ensures
            r.backup == backup,
            r.protected == protected,
            are_utc_periods(backup.time as int, r.periods),
    {
        let periods = Periods::utc(backup.time);
        PruneCandidate { backup, protected, periods }
    }
}

/// Two times have the same period number exactly when they lie in the
/// same hour, day, week, month or year.
pub proof fn lemma_same_period(a: int, p: Periods, b: int, q: Periods)
    requires
        are_utc_periods(a, p),
        are_utc_periods(b, q),
    ensures
        p.year == q.year <==> in_year(b / 86400, p.year as int),
        p.month == q.month <==> in_month(b / 86400, p.year as int, p.month - 12 * p.year + 1),
        p.day == q.day <==> a / 86400 == b / 86400,
        p.hour == q.hour <==> a / 3600 == b / 3600,
{
    let day = b / 86400;
    lemma_month_in_year(day, q.year as int, q.month - 12 * q.year + 1);
    if in_year(day, p.year as int) {
        lemma_month_in_year(day, p.year as int, 1);
        let k = choose|k: int| in_month(day, p.year as int, k);
        lemma_one_month(day, p.year as int, k, q.year as int, q.month - 12 * q.year + 1);
    }
    if in_month(day, p.year as int, p.month - 12 * p.year + 1) {
        lemma_one_month(
            day,
            p.year as int,
            p.month - 12 * p.year + 1,
            q.year as int,
            q.month - 12 * q.year + 1,
        );
    }
}

} // verus!
