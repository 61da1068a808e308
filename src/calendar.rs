use vstd::prelude::*;
use vstd::arithmetic::div_mod::lemma_fundamental_div_mod;
use vstd::arithmetic::div_mod::lemma_fundamental_div_mod_converse;

verus! {

/// The Gregorian leap-year rule: divisible by 4 and not by 100, unless also by 400.
pub open spec fn is_leap(y: int) -> bool {
    (y % 4 == 0 && y % 100 != 0) || y % 400 == 0
}

pub open spec fn year_length(y: int) -> int {
    if is_leap(y) {
        366
    } else {
        365
    }
}

/// Days from 1970-01-01 to the first day of year `y` (negative before 1970).
pub open spec fn days_before_year(y: int) -> int
    decreases (if y >= 1970 { y - 1970 } else { 1970 - y }),
{
    if y > 1970 {
        days_before_year(y - 1) + year_length(y - 1)
    } else if y < 1970 {
        days_before_year(y + 1) - year_length(y)
    } else {
        0
    }
}

/// Days in month `m` (1 to 12) of year `y`.
pub open spec fn month_length(y: int, m: int) -> int {
    if m == 2 {
        if is_leap(y) {
            29
        } else {
            28
        }
    } else if m == 4 || m == 6 || m == 9 || m == 11 {
        30
    } else {
        31
    }
}

/// Days in year `y` before the first day of month `m`.
pub open spec fn days_before_month(y: int, m: int) -> int
    decreases m,
{
    if m <= 1 {
        0
    } else {
        days_before_month(y, m - 1) + month_length(y, m - 1)
    }
}

pub open spec fn is_valid_date(y: int, m: int, d: int) -> bool {
    1 <= m <= 12 && 1 <= d <= month_length(y, m)
}

/// Days from 1970-01-01 to the date `y`-`m`-`d` of the proleptic Gregorian calendar.
pub open spec fn epoch_days(y: int, m: int, d: int) -> int {
    days_before_year(y) + days_before_month(y, m) + d - 1
}

/// The epoch day count of a valid date, where it fits an `i32`.
pub open spec fn days_since_epoch(y: int, m: int, d: int) -> Option<i32> {
    if is_valid_date(y, m, d) && i32::MIN <= epoch_days(y, m, d) <= i32::MAX {
        Some(epoch_days(y, m, d) as i32)
    } else {
        None
    }
}

/// Leap years among 1 ..= n, counted from year 0 backwards when n is negative.
pub open spec fn leaps_through(n: int) -> int {
    n / 4 - n / 100 + n / 400
}

proof fn lemma_div_step(n: int, k: int)
    requires
        k > 0,
    ensures
        n / k - (n - 1) / k == (if n % k == 0 { 1int } else { 0int }),
{
    let q = (n - 1) / k;
    let r = (n - 1) % k;
    lemma_fundamental_div_mod(n - 1, k);
    if r == k - 1 {
        assert(n == (q + 1) * k + 0) by (nonlinear_arith)
            requires
                n - 1 == k * q + r,
                r == k - 1,
        ;
        lemma_fundamental_div_mod_converse(n, k, q + 1, 0);
    } else {
        assert(n == q * k + (r + 1)) by (nonlinear_arith)
            requires
                n - 1 == k * q + r,
        ;
        lemma_fundamental_div_mod_converse(n, k, q, r + 1);
    }
}

proof fn lemma_divides_coarser(n: int, a: int, b: int)
    requires
        a > 0,
        b > 0,
        n % (a * b) == 0,
    ensures
        n % a == 0,
{
    assert(a * b > 0) by (nonlinear_arith)
        requires
            a > 0,
            b > 0,
    ;
    lemma_fundamental_div_mod(n, a * b);
    let q = n / (a * b);
    assert(n == (q * b) * a + 0) by (nonlinear_arith)
        requires
            n == (a * b) * q + n % (a * b),
            n % (a * b) == 0,
    ;
    lemma_fundamental_div_mod_converse(n, a, q * b, 0);
}

proof fn lemma_leaps_step(n: int)
    ensures
        leaps_through(n) - leaps_through(n - 1) == (if is_leap(n) { 1int } else { 0int }),
{
    lemma_div_step(n, 4);
    lemma_div_step(n, 100);
    lemma_div_step(n, 400);
    if n % 400 == 0 {
        lemma_divides_coarser(n, 100, 4);
    }
    if n % 100 == 0 {
        lemma_divides_coarser(n, 4, 25);
    }
}

/// The count of days before a year in closed form.
pub proof fn lemma_days_before_year(y: int)
    ensures
        days_before_year(y) == 365 * (y - 1970) + leaps_through(y - 1) - leaps_through(1969),
    decreases (if y >= 1970 { y - 1970 } else { 1970 - y }),
{
    if y > 1970 {
        lemma_days_before_year(y - 1);
        lemma_leaps_step(y - 1);
    } else if y < 1970 {
        lemma_days_before_year(y + 1);
        lemma_leaps_step(y);
    }
}

proof fn lemma_div_shift(x: int, j: int, k: int)
    requires
        k > 0,
    ensures
        (x + j * k) / k == x / k + j,
{
    lemma_fundamental_div_mod(x, k);
    let q = x / k;
    let r = x % k;
    assert(x + j * k == (q + j) * k + r) by (nonlinear_arith)
        requires
            x == k * q + r,
    ;
    lemma_fundamental_div_mod_converse(x + j * k, k, q + j, r);
}

/// Whether `year` is a leap year of the Gregorian calendar.
pub fn is_leap_year(year: i32) -> (r: bool)
    ensures
        r == is_leap(year as int),
{
    (year % 4 == 0 && year % 100 != 0) || year % 400 == 0
}

/// Days in month `month` (1 to 12) of `year`.
pub fn days_in_month(year: i32, month: u32) -> (r: u32)
    requires
        1 <= month <= 12,
    ensures
        r as int == month_length(year as int, month as int),
{
    if month == 2 {
        if is_leap_year(year) {
            29
        } else {
            28
        }
    } else if month == 4 || month == 6 || month == 9 || month == 11 {
        30
    } else {
        31
    }
}

/// Days from 1970-01-01 to `year`-`month`-`day`, or `None` where that is no date
/// or the count does not fit an `i32`.
pub fn calculate_days_since_epoch(year: i32, month: u32, day: u32) -> (r: Option<i32>)
    ensures
        r == days_since_epoch(year as int, month as int, day as int),
{
    if month < 1 || month > 12 {
        return None;
    }
    if day < 1 || day > days_in_month(year, month) {
        return None;
    }
    // Leap years before `year`, by floor division on a shifted, non-negative year.
    let n: i64 = year as i64 - 1;
    let shifted: i64 = n + 2_400_000_000;
    let leaps: i64 = (shifted / 4 - 600_000_000) - (shifted / 100 - 24_000_000) + (shifted / 400
        - 6_000_000);
    proof {
        lemma_div_shift(n as int, 600_000_000, 4);
        lemma_div_shift(n as int, 24_000_000, 100);
        lemma_div_shift(n as int, 6_000_000, 400);
        assert(leaps == leaps_through(n as int));
        assert(leaps_through(1969) == 477);
        lemma_days_before_year(year as int);
    }
    let mut days: i64 = 365 * (year as i64 - 1970) + leaps - 477;
    assert(days == days_before_year(year as int));
    let mut m: u32 = 1;
    while m < month
        invariant
            1 <= m <= month <= 12,
            days == days_before_year(year as int) + days_before_month(year as int, m as int),
            -800_000_000_000 <= days_before_year(year as int) <= 800_000_000_000,
            0 <= days_before_month(year as int, m as int) <= 31 * (m - 1),
        decreases month - m,
    {
        days = days + days_in_month(year, m) as i64;
        m = m + 1;
    }
    days = days + day as i64 - 1;
    if days < i32::MIN as i64 || days > i32::MAX as i64 {
        return None;
    }
    Some(days as i32)
}

} // verus!
