//! Proleptic-Gregorian calendar arithmetic: conversions between civil
//! (year, month, day, hour, minute, second) tuples and a linear count of
//! seconds since the civil epoch 0000-01-01T00:00:00 UTC.
use vstd::prelude::*;

verus! {

/// Seconds in one civil day.
pub const SECS_PER_DAY: i64 = 86400;

/// Number of days in the years 0..=9999 of the proleptic Gregorian calendar.
pub const DAYS_MAX: i64 = 3652425;

/// `DAYS_MAX * 86400`: one past the largest representable instant
/// (instants run from 0000-01-01T00:00:00 up to 9999-12-31T23:59:59).
pub const SECS_MAX: i64 = 315569520000;

/// Seconds from the civil epoch 0000-01-01T00:00:00 to the Unix epoch
/// 1970-01-01T00:00:00 (719528 days).
pub const UNIX_EPOCH_SECS: i64 = 62167219200;

pub open spec fn is_leap_year(y: int) -> bool {
    (y % 4 == 0 && y % 100 != 0) || y % 400 == 0
}

pub open spec fn days_in_year(y: int) -> int {
    if is_leap_year(y) {
        366
    } else {
        365
    }
}

pub open spec fn days_in_month(y: int, m: int) -> int {
    if m == 2 {
        if is_leap_year(y) {
            29
        } else {
            28
        }
    } else if m == 4 || m == 6 || m == 9 || m == 11 {
        30
    } else {
        31
    }
}

/// Days in the years `0, 1, ..., y - 1`.
pub open spec fn days_before_year(y: int) -> int
    decreases y,
{
    if y <= 0 {
        0
    } else {
        days_before_year(y - 1) + days_in_year(y - 1)
    }
}

/// Days in the months `1, ..., m - 1` of year `y`.
pub open spec fn days_before_month(y: int, m: int) -> int
    decreases m,
{
    if m <= 1 {
        0
    } else {
        days_before_month(y, m - 1) + days_in_month(y, m - 1)
    }
}

pub open spec fn valid_ymd(y: int, m: int, d: int) -> bool {
    &&& 0 <= y < 10000
    &&& 1 <= m <= 12
    &&& 1 <= d <= days_in_month(y, m)
}

pub open spec fn valid_hms(h: int, mi: int, s: int) -> bool {
    &&& 0 <= h < 24
    &&& 0 <= mi < 60
    &&& 0 <= s < 60
}

pub open spec fn valid_civil(y: int, m: int, d: int, h: int, mi: int, s: int) -> bool {
    valid_ymd(y, m, d) && valid_hms(h, mi, s)
}

/// Days from 0000-01-01 to the civil day `y-m-d`.
pub open spec fn epoch_days(y: int, m: int, d: int) -> int {
    days_before_year(y) + days_before_month(y, m) + (d - 1)
}

/// Seconds from 0000-01-01T00:00:00 to the civil instant `y-m-d h:mi:s`.
pub open spec fn civil_secs(y: int, m: int, d: int, h: int, mi: int, s: int) -> int {
    epoch_days(y, m, d) * 86400 + h * 3600 + mi * 60 + s
}

/// A full year's months sum to its day count.
pub proof fn lemma_months_fill_year(y: int)
    ensures
        days_before_month(y, 13) == days_in_year(y),
{
    reveal_with_fuel(days_before_month, 14);
}

pub proof fn lemma_days_before_month_mono(y: int, m1: int, m2: int)
    requires
        m1 <= m2,
    ensures
        days_before_month(y, m1) <= days_before_month(y, m2),
    decreases m2 - m1,
{
    if m1 < m2 {
        lemma_days_before_month_mono(y, m1, m2 - 1);
        if m2 >= 2 {
            assert(days_in_month(y, m2 - 1) >= 28);
        }
    }
}

/// A valid day of year `y` lies in `[0, days_in_year(y))` when counted
/// from the start of the year.
pub proof fn lemma_day_of_year_range(y: int, m: int, d: int)
    requires
        valid_ymd(y, m, d),
    ensures
        0 <= days_before_month(y, m) + (d - 1) < days_in_year(y),
{
    lemma_days_before_month_mono(y, 1, m);
    lemma_days_before_month_mono(y, m + 1, 13);
    lemma_months_fill_year(y);
    assert(days_before_month(y, m + 1) == days_before_month(y, m) + days_in_month(y, m));
}

pub proof fn lemma_days_before_year_mono(y1: int, y2: int)
    requires
        0 <= y1 <= y2,
    ensures
        days_before_year(y1) <= days_before_year(y2),
        days_before_year(y1) + 365 * (y2 - y1) <= days_before_year(y2),
    decreases y2 - y1,
{
    if y1 < y2 {
        lemma_days_before_year_mono(y1, y2 - 1);
        assert(days_before_year(y2) == days_before_year(y2 - 1) + days_in_year(y2 - 1));
        assert(365 * (y2 - y1) == 365 * (y2 - 1 - y1) + 365) by (nonlinear_arith);
    }
}

/// A valid civil day of year `y` maps into `[days_before_year(y), days_before_year(y + 1))`.
pub proof fn lemma_epoch_days_range(y: int, m: int, d: int)
    requires
        valid_ymd(y, m, d),
    ensures
        days_before_year(y) <= epoch_days(y, m, d) < days_before_year(y + 1),
        0 <= epoch_days(y, m, d) < 3652425,
{
    lemma_day_of_year_range(y, m, d);
    assert(days_before_year(y + 1) == days_before_year(y) + days_in_year(y));
    lemma_days_before_year_mono(0, y);
    lemma_days_before_year_mono(y + 1, 10000);
    lemma_days_before_year_10000();
}

/// Count of leap years among `0, 1, ..., y - 1`, in closed form.
pub open spec fn leaps_before(y: int) -> int {
    (y + 3) / 4 - (y + 99) / 100 + (y + 399) / 400
}

proof fn lemma_div_shift(x: int, k: int)
    requires
        0 <= x,
        2 <= k,
    ensures
        (x + k) / k == x / k + 1,
        (x + k - 1) / k == x / k + if x % k == 0 { 0int } else { 1int },
{
    vstd::arithmetic::div_mod::lemma_fundamental_div_mod(x, k);
    vstd::arithmetic::div_mod::lemma_mod_division_less_than_divisor(x, k);
    let q = x / k;
    let r = x % k;
    assert(x == k * q + r);
    assert(k * q == q * k) by (nonlinear_arith);
    assert((q + 1) * k == q * k + k) by (nonlinear_arith);
    assert(x + k == (q + 1) * k + r);
    vstd::arithmetic::div_mod::lemma_fundamental_div_mod_converse(x + k, k, q + 1, r);
    if r == 0 {
        assert(x + k - 1 == q * k + (k - 1));
        vstd::arithmetic::div_mod::lemma_fundamental_div_mod_converse(x + k - 1, k, q, k - 1);
    } else {
        assert(x + k - 1 == (q + 1) * k + (r - 1));
        vstd::arithmetic::div_mod::lemma_fundamental_div_mod_converse(x + k - 1, k, q + 1, r - 1);
    }
}

proof fn lemma_mod_factor(x: int)
    requires
        0 <= x,
    ensures
        x % 400 == 0 ==> x % 100 == 0,
        x % 100 == 0 ==> x % 4 == 0,
{
    vstd::arithmetic::div_mod::lemma_fundamental_div_mod(x, 400);
    vstd::arithmetic::div_mod::lemma_fundamental_div_mod(x, 100);
    if x % 400 == 0 {
        assert(x == (4 * (x / 400)) * 100 + 0) by (nonlinear_arith)
            requires x == 400 * (x / 400);
        vstd::arithmetic::div_mod::lemma_fundamental_div_mod_converse(x, 100, 4 * (x / 400), 0);
    }
    if x % 100 == 0 {
        assert(x == (25 * (x / 100)) * 4 + 0) by (nonlinear_arith)
            requires x == 100 * (x / 100);
        vstd::arithmetic::div_mod::lemma_fundamental_div_mod_converse(x, 4, 25 * (x / 100), 0);
    }
}

pub proof fn lemma_days_before_year_closed(y: int)
    requires
        0 <= y,
    ensures
        days_before_year(y) == 365 * y + leaps_before(y),
    decreases y,
{
    if y > 0 {
        lemma_days_before_year_closed(y - 1);
        let x = y - 1;
        lemma_div_shift(x, 4);
        lemma_div_shift(x, 100);
        lemma_div_shift(x, 400);
        lemma_mod_factor(x);
        assert(365 * y == 365 * (y - 1) + 365);
    }
}

pub proof fn lemma_days_before_year_10000()
    ensures
        days_before_year(10000) == 3652425,
{
    lemma_days_before_year_closed(10000);
}

/// Two valid civil dates with the same epoch-day count are the same date.
pub proof fn lemma_epoch_days_injective(y1: int, m1: int, d1: int, y2: int, m2: int, d2: int)
    requires
        valid_ymd(y1, m1, d1),
        valid_ymd(y2, m2, d2),
        epoch_days(y1, m1, d1) == epoch_days(y2, m2, d2),
    ensures
        y1 == y2 && m1 == m2 && d1 == d2,
{
    lemma_epoch_days_range(y1, m1, d1);
    lemma_epoch_days_range(y2, m2, d2);
    if y1 < y2 {
        lemma_days_before_year_mono(y1 + 1, y2);
        assert(false);
    }
    if y2 < y1 {
        lemma_days_before_year_mono(y2 + 1, y1);
        assert(false);
    }
    let doy1 = days_before_month(y1, m1) + (d1 - 1);
    let doy2 = days_before_month(y1, m2) + (d2 - 1);
    assert(doy1 == doy2);
    if m1 < m2 {
        assert(days_before_month(y1, m1 + 1) == days_before_month(y1, m1) + days_in_month(y1, m1));
        lemma_days_before_month_mono(y1, m1 + 1, m2);
        assert(false);
    }
    if m2 < m1 {
        assert(days_before_month(y1, m2 + 1) == days_before_month(y1, m2) + days_in_month(y1, m2));
        lemma_days_before_month_mono(y1, m2 + 1, m1);
        assert(false);
    }
}

/// Two valid civil tuples denoting the same second are equal.
pub proof fn lemma_civil_secs_injective(
    y1: int, m1: int, d1: int, h1: int, mi1: int, s1: int,
    y2: int, m2: int, d2: int, h2: int, mi2: int, s2: int,
)
    requires
        valid_civil(y1, m1, d1, h1, mi1, s1),
        valid_civil(y2, m2, d2, h2, mi2, s2),
        civil_secs(y1, m1, d1, h1, mi1, s1) == civil_secs(y2, m2, d2, h2, mi2, s2),
    ensures
        y1 == y2 && m1 == m2 && d1 == d2 && h1 == h2 && mi1 == mi2 && s1 == s2,
{
    let z1 = epoch_days(y1, m1, d1);
    let z2 = epoch_days(y2, m2, d2);
    let sod1 = h1 * 3600 + mi1 * 60 + s1;
    let sod2 = h2 * 3600 + mi2 * 60 + s2;
    assert(0 <= sod1 < 86400);
    assert(0 <= sod2 < 86400);
    assert(z1 * 86400 + sod1 == z2 * 86400 + sod2);
    if z1 < z2 {
        assert(z2 * 86400 >= (z1 + 1) * 86400) by (nonlinear_arith)
            requires z1 + 1 <= z2;
        assert(false);
    }
    if z2 < z1 {
        assert(z1 * 86400 >= (z2 + 1) * 86400) by (nonlinear_arith)
            requires z2 + 1 <= z1;
        assert(false);
    }
    lemma_epoch_days_injective(y1, m1, d1, y2, m2, d2);
    assert(sod1 == sod2);
    if h1 < h2 {
        assert(false);
    }
    if h2 < h1 {
        assert(false);
    }
    if mi1 < mi2 {
        assert(false);
    }
    if mi2 < mi1 {
        assert(false);
    }
}

/// A valid civil instant's second count lies in `[0, SECS_MAX)`.
pub proof fn lemma_civil_secs_range(y: int, m: int, d: int, h: int, mi: int, s: int)
    requires
        valid_civil(y, m, d, h, mi, s),
    ensures
        0 <= civil_secs(y, m, d, h, mi, s) < SECS_MAX,
{
    lemma_epoch_days_range(y, m, d);
    let z = epoch_days(y, m, d);
    assert(z * 86400 >= 0) by (nonlinear_arith)
        requires z >= 0;
    assert(z * 86400 <= 3652424 * 86400) by (nonlinear_arith)
        requires z <= 3652424;
}

/// Every second count in `[0, SECS_MAX)` is denoted by some valid civil tuple.
pub proof fn lemma_civil_exists(t: int)
    requires
        0 <= t < SECS_MAX,
    ensures
        exists|y: int, m: int, d: int, h: int, mi: int, s: int|
            #[trigger] valid_civil(y, m, d, h, mi, s) && civil_secs(y, m, d, h, mi, s) == t,
    decreases t,
{
    if t == 0 {
        assert(valid_civil(0, 1, 1, 0, 0, 0));
        assert(civil_secs(0, 1, 1, 0, 0, 0) == 0);
    } else {
        lemma_civil_exists(t - 1);
        let (y, m, d, h, mi, s) = choose|y: int, m: int, d: int, h: int, mi: int, s: int|
            #[trigger] valid_civil(y, m, d, h, mi, s) && civil_secs(y, m, d, h, mi, s) == t - 1;
        if s < 59 {
            assert(valid_civil(y, m, d, h, mi, s + 1) && civil_secs(y, m, d, h, mi, s + 1) == t);
        } else if mi < 59 {
            assert(valid_civil(y, m, d, h, mi + 1, 0) && civil_secs(y, m, d, h, mi + 1, 0) == t);
        } else if h < 23 {
            assert(valid_civil(y, m, d, h + 1, 0, 0) && civil_secs(y, m, d, h + 1, 0, 0) == t);
        } else {
            // midnight rollover to the next civil day
            assert(civil_secs(y, m, d, h, mi, s) == epoch_days(y, m, d) * 86400 + 86399);
            if d < days_in_month(y, m) {
                assert(epoch_days(y, m, d + 1) == epoch_days(y, m, d) + 1);
                assert((epoch_days(y, m, d) + 1) * 86400 == epoch_days(y, m, d) * 86400 + 86400)
                    by (nonlinear_arith);
                assert(valid_civil(y, m, d + 1, 0, 0, 0)
                    && civil_secs(y, m, d + 1, 0, 0, 0) == t);
            } else if m < 12 {
                assert(days_before_month(y, m + 1) == days_before_month(y, m) + days_in_month(y, m));
                assert(epoch_days(y, m + 1, 1) == epoch_days(y, m, d) + 1);
                assert((epoch_days(y, m, d) + 1) * 86400 == epoch_days(y, m, d) * 86400 + 86400)
                    by (nonlinear_arith);
                assert(valid_civil(y, m + 1, 1, 0, 0, 0)
                    && civil_secs(y, m + 1, 1, 0, 0, 0) == t);
            } else {
                lemma_months_fill_year(y);
                assert(days_before_month(y, 13) == days_before_month(y, 12) + days_in_month(y, 12));
                assert(days_before_year(y + 1) == days_before_year(y) + days_in_year(y));
                assert(epoch_days(y + 1, 1, 1) == epoch_days(y, m, d) + 1);
                assert((epoch_days(y, m, d) + 1) * 86400 == epoch_days(y, m, d) * 86400 + 86400)
                    by (nonlinear_arith);
                if y + 1 >= 10000 {
                    lemma_epoch_days_range(y, m, d);
                    lemma_days_before_year_10000();
                    lemma_days_before_year_mono(y + 1, 10000);
                    assert(epoch_days(y, m, d) == 3652424);
                    assert(t == SECS_MAX);
                    assert(false);
                }
                assert(valid_civil(y + 1, 1, 1, 0, 0, 0)
                    && civil_secs(y + 1, 1, 1, 0, 0, 0) == t);
            }
        }
    }
}

/// The unique valid civil tuple denoting second count `t`.
pub open spec fn civil_decomp(t: int) -> (int, int, int, int, int, int) {
    choose|y: int, m: int, d: int, h: int, mi: int, s: int|
        #[trigger] valid_civil(y, m, d, h, mi, s) && civil_secs(y, m, d, h, mi, s) == t
}

pub proof fn lemma_civil_decomp(t: int)
    requires
        0 <= t < SECS_MAX,
    ensures
        ({
            let (y, m, d, h, mi, s) = civil_decomp(t);
            valid_civil(y, m, d, h, mi, s) && civil_secs(y, m, d, h, mi, s) == t
        }),
{
    lemma_civil_exists(t);
}

/// Any valid civil tuple denoting `t` is `civil_decomp(t)`.
pub proof fn lemma_civil_decomp_unique(t: int, y: int, m: int, d: int, h: int, mi: int, s: int)
    requires
        valid_civil(y, m, d, h, mi, s),
        civil_secs(y, m, d, h, mi, s) == t,
    ensures
        civil_decomp(t) == (y, m, d, h, mi, s),
{
    lemma_civil_secs_range(y, m, d, h, mi, s);
    lemma_civil_decomp(t);
    let (y2, m2, d2, h2, mi2, s2) = civil_decomp(t);
    lemma_civil_secs_injective(y, m, d, h, mi, s, y2, m2, d2, h2, mi2, s2);
}

pub fn is_leap_year_x(y: u64) -> (b: bool)
    ensures
        b == is_leap_year(y as int),
{
    (y % 4 == 0 && y % 100 != 0) || y % 400 == 0
}

pub fn days_in_year_x(y: u64) -> (r: u64)
    ensures
        r == days_in_year(y as int),
{
    if is_leap_year_x(y) {
        366
    } else {
        365
    }
}

pub fn days_in_month_x(y: u64, m: u64) -> (r: u64)
    ensures
        r == days_in_month(y as int, m as int),
{
    if m == 2 {
        if is_leap_year_x(y) {
            29
        } else {
            28
        }
    } else if m == 4 || m == 6 || m == 9 || m == 11 {
        30
    } else {
        31
    }
}

pub fn days_before_year_x(y: u64) -> (r: u64)
    requires
        y <= 10000,
    ensures
        r == days_before_year(y as int),
{
    let mut i: u64 = 0;
    let mut acc: u64 = 0;
    while i < y
        invariant
            i <= y <= 10000,
            acc == days_before_year(i as int),
        decreases y - i,
    {
        proof {
            lemma_days_before_year_mono(i as int, 10000);
            lemma_days_before_year_10000();
        }
        acc = acc + days_in_year_x(i);
        i = i + 1;
    }
    acc
}

pub fn days_before_month_x(y: u64, m: u64) -> (r: u64)
    requires
        m <= 13,
    ensures
        r == days_before_month(y as int, m as int),
{
    let mut i: u64 = 1;
    let mut acc: u64 = 0;
    while i < m
        invariant
            1 <= i,
            m <= 13,
            i <= 13,
            m >= 1 ==> i <= m,
            m < 1 ==> i == 1,
            acc == days_before_month(y as int, i as int),
            acc <= 366,
        decreases 13 - i,
    {
        proof {
            lemma_days_before_month_mono(y as int, i as int + 1, 13);
            lemma_months_fill_year(y as int);
            assert(days_before_month(y as int, i as int + 1)
                == days_before_month(y as int, i as int) + days_in_month(y as int, i as int));
        }
        acc = acc + days_in_month_x(y, i);
        i = i + 1;
    }
    acc
}

/// Seconds since the civil epoch for a valid civil tuple.
pub fn civil_secs_x(y: u64, m: u64, d: u64, h: u64, mi: u64, s: u64) -> (r: i64)
    requires
        valid_civil(y as int, m as int, d as int, h as int, mi as int, s as int),
    ensures
        r == civil_secs(y as int, m as int, d as int, h as int, mi as int, s as int),
        0 <= r < SECS_MAX,
{
    proof {
        lemma_epoch_days_range(y as int, m as int, d as int);
        lemma_civil_secs_range(y as int, m as int, d as int, h as int, mi as int, s as int);
    }
    let days: u64 = days_before_year_x(y) + days_before_month_x(y, m) + (d - 1);
    assert(days * 86400 < 3652425 * 86400) by (nonlinear_arith)
        requires days < 3652425;
    days as i64 * 86400 + h as i64 * 3600 + mi as i64 * 60 + s as i64
}

/// The civil tuple denoting second count `t`.
pub fn civil_of_secs_x(t: i64) -> (r: (u64, u64, u64, u64, u64, u64))
    requires
        0 <= t < SECS_MAX,
    ensures
        valid_civil(r.0 as int, r.1 as int, r.2 as int, r.3 as int, r.4 as int, r.5 as int),
        civil_secs(r.0 as int, r.1 as int, r.2 as int, r.3 as int, r.4 as int, r.5 as int)
            == t,
{
    let tt: u64 = t as u64;
    let z: u64 = tt / 86400;
    let sod: u64 = tt % 86400;
    assert(tt == 86400 * (tt as int / 86400) + tt as int % 86400) by {
        vstd::arithmetic::div_mod::lemma_fundamental_div_mod(tt as int, 86400);
    };

    // find the year by accumulating whole years
    let mut y: u64 = 0;
    let mut acc: u64 = 0;
    proof {
        lemma_days_before_year_10000();
    }
    assert(z < 3652425);
    while acc + days_in_year_x(y) <= z
        invariant
            acc == days_before_year(y as int),
            acc <= z < 3652425,
            y <= 9999,
        decreases 3652425 - y,
    {
        proof {
            if y as int + 1 >= 10000 {
                lemma_days_before_year_mono(10000, y as int + 1);
                lemma_days_before_year_10000();
                assert(false);
            }
        }
        acc = acc + days_in_year_x(y);
        y = y + 1;
        proof {
            lemma_days_before_year_mono(y as int, 10000);
            lemma_days_before_year_10000();
        }
    }
    let doy: u64 = z - acc;
    assert(doy < days_in_year(y as int));

    // find the month within the year
    let mut m: u64 = 1;
    let mut macc: u64 = 0;
    proof {
        lemma_months_fill_year(y as int);
    }
    while macc + days_in_month_x(y, m) <= doy
        invariant
            1 <= m <= 12,
            macc == days_before_month(y as int, m as int),
            macc <= doy < days_in_year(y as int),
            days_before_month(y as int, 13) == days_in_year(y as int),
        decreases 12 - m,
    {
        proof {
            if m == 12 {
                assert(days_before_month(y as int, 13)
                    == days_before_month(y as int, 12) + days_in_month(y as int, 12));
                assert(false);
            }
            lemma_days_before_month_mono(y as int, m as int + 1, 13);
        }
        macc = macc + days_in_month_x(y, m);
        m = m + 1;
    }
    let d: u64 = doy - macc + 1;

    // split the second of day
    let h: u64 = sod / 3600;
    let r1: u64 = sod % 3600;
    assert(sod == 3600 * (sod as int / 3600) + sod as int % 3600) by {
        vstd::arithmetic::div_mod::lemma_fundamental_div_mod(sod as int, 3600);
    };
    let mi: u64 = r1 / 60;
    let s: u64 = r1 % 60;
    assert(r1 == 60 * (r1 as int / 60) + r1 as int % 60) by {
        vstd::arithmetic::div_mod::lemma_fundamental_div_mod(r1 as int, 60);
    };
    assert(epoch_days(y as int, m as int, d as int) == z);
    assert(z * 86400 == 86400 * z) by (nonlinear_arith);
    (y, m, d, h, mi, s)
}

} // verus!
