use vstd::prelude::*;
use crate::types::{DataType, FieldModel, FieldValue};
use crate::calendar::{calculate_days_since_epoch, days_since_epoch, month_length};
use crate::text::{
    all_digits, chars_of, digits_value, i64_literal, is_digit, lemma_digits_value_nonneg,
    parse_digits, parse_i64_range, pieces, string_of, range_eq_ignore_ascii_case, same_ignoring_ascii_case,
    split_on, split_ranges, trim_range, trimmed,
};

verus! {

/// The boolean that a word stands for, compared without regard to ASCII case.
pub open spec fn boolean_word(t: Seq<char>) -> Option<bool> {
    if same_ignoring_ascii_case(t, "true"@) || same_ignoring_ascii_case(t, "1"@)
        || same_ignoring_ascii_case(t, "yes"@) || same_ignoring_ascii_case(t, "y"@)
        || same_ignoring_ascii_case(t, "t"@) {
        Some(true)
    } else if same_ignoring_ascii_case(t, "false"@) || same_ignoring_ascii_case(t, "0"@)
        || same_ignoring_ascii_case(t, "no"@) || same_ignoring_ascii_case(t, "n"@)
        || same_ignoring_ascii_case(t, "f"@) {
        Some(false)
    } else {
        None
    }
}

/// The boolean that `s` writes once trimmed.
pub open spec fn boolean_text(s: Seq<char>) -> Option<bool> {
    boolean_word(trimmed(s))
}

pub fn boolean_in_range(v: &Vec<char>, lo: usize, hi: usize) -> (r: Option<bool>)
    requires
        lo <= hi <= v@.len(),
    ensures
        r == boolean_word(v@.subrange(lo as int, hi as int)),
{
    if range_eq_ignore_ascii_case(v, lo, hi, "true") || range_eq_ignore_ascii_case(v, lo, hi, "1")
        || range_eq_ignore_ascii_case(v, lo, hi, "yes") || range_eq_ignore_ascii_case(v, lo, hi, "y")
        || range_eq_ignore_ascii_case(v, lo, hi, "t") {
        Some(true)
    } else if range_eq_ignore_ascii_case(v, lo, hi, "false") || range_eq_ignore_ascii_case(
        v,
        lo,
        hi,
        "0",
    ) || range_eq_ignore_ascii_case(v, lo, hi, "no") || range_eq_ignore_ascii_case(v, lo, hi, "n")
        || range_eq_ignore_ascii_case(v, lo, hi, "f") {
        Some(false)
    } else {
        None
    }
}

/// Reads a boolean: `true`, `1`, `yes`, `y`, `t` and `false`, `0`, `no`, `n`, `f`,
/// in any ASCII case and with surrounding whitespace; anything else is `None`.
pub fn parse_boolean(s: &str) -> (r: Option<bool>)
    ensures
        r == boolean_text(s@),
{
    let v = chars_of(s);
    let (a, b) = trim_range(&v, 0, v.len());
    assert(v@.subrange(0, v@.len() as int) =~= s@);
    boolean_in_range(&v, a, b)
}

/// The layouts in which a date may be written.
#[derive(Clone, Copy, Debug, PartialEq, Eq, Structural)]
pub enum DateFormat {
    /// `YYYY-MM-DD`
    YearMonthDayDash,
    /// `MM/DD/YYYY`
    MonthDayYear,
    /// `DD/MM/YYYY`
    DayMonthYear,
    /// `YYYY/MM/DD`
    YearMonthDaySlash,
}

pub open spec fn format_separator(f: DateFormat) -> char {
    match f {
        DateFormat::YearMonthDayDash => '-',
        _ => '/',
    }
}

/// The epoch day count that `s` writes in layout `f`: three runs of digits between
/// separators, a year that fits an `i32`, and a valid date.
pub open spec fn date_in_format(s: Seq<char>, f: DateFormat) -> Option<i32> {
    let p = split_on(s, format_separator(f));
    if p.len() == 3 && all_digits(p[0]) && all_digits(p[1]) && all_digits(p[2]) {
        let (y, m, d) = match f {
            DateFormat::MonthDayYear => (p[2], p[0], p[1]),
            DateFormat::DayMonthYear => (p[2], p[1], p[0]),
            _ => (p[0], p[1], p[2]),
        };
        if digits_value(y) <= i32::MAX {
            days_since_epoch(digits_value(y), digits_value(m), digits_value(d))
        } else {
            None
        }
    } else {
        None
    }
}

/// `t` has the shape of an ISO date: ten characters with hyphens at 4 and 7.
pub open spec fn iso_date_shape(t: Seq<char>) -> bool {
    t.len() == 10 && t[4] == '-' && t[7] == '-'
}

/// The epoch day count of a date written as `YYYY-MM-DD` (taken only in that exact
/// shape), else `MM/DD/YYYY`, else `DD/MM/YYYY`, else `YYYY/MM/DD`: the first that reads.
pub open spec fn date_days_trimmed(t: Seq<char>) -> Option<i32> {
    if iso_date_shape(t) && date_in_format(t, DateFormat::YearMonthDayDash) is Some {
        date_in_format(t, DateFormat::YearMonthDayDash)
    } else if date_in_format(t, DateFormat::MonthDayYear) is Some {
        date_in_format(t, DateFormat::MonthDayYear)
    } else if date_in_format(t, DateFormat::DayMonthYear) is Some {
        date_in_format(t, DateFormat::DayMonthYear)
    } else {
        date_in_format(t, DateFormat::YearMonthDaySlash)
    }
}

pub open spec fn date_days(s: Seq<char>) -> Option<i32> {
    date_days_trimmed(trimmed(s))
}

pub fn date_in_range(v: &Vec<char>, lo: usize, hi: usize, format: DateFormat) -> (r: Option<i32>)
    requires
        lo <= hi <= v@.len(),
    ensures
        r == date_in_format(v@.subrange(lo as int, hi as int), format),
{
    let ghost s = v@.subrange(lo as int, hi as int);
    let sep = match format {
        DateFormat::YearMonthDayDash => '-',
        _ => '/',
    };
    let parts = split_ranges(v, lo, hi, sep);
    let ghost p = split_on(s, sep);
    assert(pieces(v@, parts@) == p);
    if parts.len() != 3 {
        return None;
    }
    assert(p[0] == v@.subrange(parts@[0].0 as int, parts@[0].1 as int));
    assert(p[1] == v@.subrange(parts@[1].0 as int, parts@[1].1 as int));
    assert(p[2] == v@.subrange(parts@[2].0 as int, parts@[2].1 as int));
    let (yi, mi, di): (usize, usize, usize) = match format {
        DateFormat::MonthDayYear => (2, 0, 1),
        DateFormat::DayMonthYear => (2, 1, 0),
        _ => (0, 1, 2),
    };
    let y = parse_digits(v, parts[yi].0, parts[yi].1);
    let m = parse_digits(v, parts[mi].0, parts[mi].1);
    let d = parse_digits(v, parts[di].0, parts[di].1);
    proof {
        if all_digits(p[0]) {
            lemma_digits_value_nonneg(p[0]);
        }
        if all_digits(p[1]) {
            lemma_digits_value_nonneg(p[1]);
        }
        if all_digits(p[2]) {
            lemma_digits_value_nonneg(p[2]);
        }
    }
    match (y, m, d) {
        (Some(y), Some(m), Some(d)) => {
            if y > i32::MAX as u64 || m > 12 || d > 31 {
                proof {
                    if m <= 12 {
                        assert(month_length(y as int, m as int) <= 31);
                    }
                }
                return None;
            }
            calculate_days_since_epoch(y as i32, m as u32, d as u32)
        },
        _ => None,
    }
}

/// The epoch day count of the date that `date_str` writes in layout `format`.
pub fn parse_date_string(date_str: &str, format: DateFormat) -> (r: Option<i32>)
    ensures
        r == date_in_format(date_str@, format),
{
    let v = chars_of(date_str);
    assert(v@.subrange(0, v@.len() as int) =~= date_str@);
    date_in_range(&v, 0, v.len(), format)
}

pub fn date_days_in_range(v: &Vec<char>, lo: usize, hi: usize) -> (r: Option<i32>)
    requires
        lo <= hi <= v@.len(),
    ensures
        r == date_days_trimmed(v@.subrange(lo as int, hi as int)),
{
    let ghost t = v@.subrange(lo as int, hi as int);
    if hi - lo == 10 && v[lo + 4] == '-' && v[lo + 7] == '-' {
        assert(t[4] == v@[lo + 4] && t[7] == v@[lo + 7]);
        let r = date_in_range(v, lo, hi, DateFormat::YearMonthDayDash);
        if r.is_some() {
            return r;
        }
    } else {
        assert(hi - lo == 10 ==> t[4] == v@[lo + 4] && t[7] == v@[lo + 7]);
    }
    let r = date_in_range(v, lo, hi, DateFormat::MonthDayYear);
    if r.is_some() {
        return r;
    }
    let r = date_in_range(v, lo, hi, DateFormat::DayMonthYear);
    if r.is_some() {
        return r;
    }
    date_in_range(v, lo, hi, DateFormat::YearMonthDaySlash)
}

/// The epoch day count of a date, read from trimmed text in the first layout
/// that reads it (see `date_days_trimmed`).
pub fn parse_date_to_days(s: &str) -> (r: Option<i32>)
    ensures
        r == date_days(s@),
{
    let v = chars_of(s);
    assert(v@.subrange(0, v@.len() as int) =~= s@);
    let (a, b) = trim_range(&v, 0, v.len());
    date_days_in_range(&v, a, b)
}

pub open spec fn pow10(n: nat) -> int
    decreases n,
{
    if n == 0 {
        1
    } else {
        10 * pow10((n - 1) as nat)
    }
}

/// Nanoseconds that a fraction of a second writes: its first nine digits, padded
/// with zeros on the right to nine.
pub open spec fn fraction_nanos(f: Seq<char>) -> int {
    let k = if f.len() > 9 {
        9
    } else {
        f.len()
    };
    digits_value(f.take(k as int)) * pow10((9 - k) as nat)
}

/// The seconds part `SS[.fraction]` of a time of day, in nanoseconds.
pub open spec fn seconds_nanos(sp: Seq<char>) -> Option<int> {
    let q = split_on(sp, '.');
    if (q.len() == 1 || q.len() == 2) && all_digits(q[0]) && digits_value(q[0]) <= 59 && (q.len()
        == 2 ==> all_digits(q[1])) {
        Some(
            digits_value(q[0]) * 1_000_000_000 + if q.len() == 2 {
                fraction_nanos(q[1])
            } else {
                0
            },
        )
    } else {
        None
    }
}

/// Nanoseconds since midnight that `HH:MM[:SS[.fraction]]` writes (hours up to 23,
/// minutes and seconds up to 59).
pub open spec fn clock_nanos(tp: Seq<char>) -> Option<int> {
    let t = split_on(tp, ':');
    if (t.len() == 2 || t.len() == 3) && all_digits(t[0]) && all_digits(t[1]) && digits_value(t[0])
        <= 23 && digits_value(t[1]) <= 59 {
        let base = (digits_value(t[0]) * 3600 + digits_value(t[1]) * 60) * 1_000_000_000;
        if t.len() == 2 {
            Some(base)
        } else {
            match seconds_nanos(t[2]) {
                Some(sn) => Some(base + sn),
                None => None,
            }
        }
    } else {
        None
    }
}

/// `tf` without one trailing `Z`.
pub open spec fn without_zone(tf: Seq<char>) -> Seq<char> {
    if tf.len() > 0 && tf.last() == 'Z' {
        tf.drop_last()
    } else {
        tf
    }
}

pub open spec fn t_as_space(c: char) -> char {
    if c == 'T' {
        ' '
    } else {
        c
    }
}

pub open spec fn fit_i64(x: int) -> Option<i64> {
    if i64::MIN <= x <= i64::MAX {
        Some(x as i64)
    } else {
        None
    }
}

/// Nanoseconds since the epoch that `YYYY-MM-DD[ T]HH:MM[:SS[.fraction]][Z]` writes.
pub open spec fn iso_datetime_nanos(s: Seq<char>) -> Option<i64> {
    let p = split_on(s.map_values(|c: char| t_as_space(c)), ' ');
    if p.len() == 2 {
        match (date_in_format(p[0], DateFormat::YearMonthDayDash), clock_nanos(without_zone(p[1]))) {
            (Some(d), Some(c)) => fit_i64(d * 86_400_000_000_000 + c),
            _ => None,
        }
    } else {
        None
    }
}

/// A Unix time given as a number: milliseconds where its magnitude exceeds ten
/// billion, else seconds; in nanoseconds.
pub open spec fn epoch_number_nanos(v: int) -> int {
    if v > 10_000_000_000 || v < -10_000_000_000 {
        v * 1_000_000
    } else {
        v * 1_000_000_000
    }
}

pub open spec fn datetime_nanos_trimmed(t: Seq<char>) -> Option<i64> {
    match i64_literal(t) {
        Some(v) => fit_i64(epoch_number_nanos(v as int)),
        None => iso_datetime_nanos(t),
    }
}

/// Nanoseconds since the epoch that `s` writes once trimmed: a whole number as a
/// Unix time, else an ISO date and time.
pub open spec fn datetime_nanos(s: Seq<char>) -> Option<i64> {
    datetime_nanos_trimmed(trimmed(s))
}

proof fn lemma_pow10_le(a: nat, b: nat)
    requires
        a <= b,
    ensures
        1 <= pow10(a) <= pow10(b),
    decreases b,
{
    if b > a {
        lemma_pow10_le(a, (b - 1) as nat);
    } else if a > 0 {
        lemma_pow10_le((a - 1) as nat, (a - 1) as nat);
    }
}

proof fn lemma_digits_value_bound(s: Seq<char>)
    requires
        forall|i: int| 0 <= i < s.len() ==> is_digit(#[trigger] s[i]),
    ensures
        digits_value(s) < pow10(s.len()),
    decreases s.len(),
{
    if s.len() > 0 {
        assert(is_digit(s[s.len() - 1]));
        lemma_digits_value_bound(s.drop_last());
    }
}

fn fraction_in_range(v: &Vec<char>, lo: usize, hi: usize) -> (r: u64)
    requires
        lo < hi <= v@.len(),
        all_digits(v@.subrange(lo as int, hi as int)),
    ensures
        r as int == fraction_nanos(v@.subrange(lo as int, hi as int)),
        r < 1_000_000_000,
{
    let ghost f = v@.subrange(lo as int, hi as int);
    let k: usize = if hi - lo > 9 {
        9
    } else {
        hi - lo
    };
    let ghost g = f.take(k as int);
    assert(g =~= v@.subrange(lo as int, lo + k));
    assert forall|i: int| 0 <= i < g.len() implies is_digit(#[trigger] g[i]) by {
        assert(g[i] == f[i]);
    }
    proof {
        lemma_digits_value_bound(g);
        lemma_digits_value_nonneg(g);
        lemma_pow10_le(k as nat, 9);
        reveal_with_fuel(pow10, 10);
        assert(pow10(0) == 1);
        assert(pow10(9) == 1_000_000_000);
    }
    let mut val: u64 = match parse_digits(v, lo, lo + k) {
        Some(x) => x,
        None => 0,
    };
    let mut j: usize = k;
    while j < 9
        invariant
            k <= j <= 9,
            val as int == digits_value(g) * pow10((j - k) as nat),
            val < pow10(j as nat),
            pow10(9) == 1_000_000_000,
        decreases 9 - j,
    {
        assert(pow10((j + 1 - k) as nat) == 10 * pow10((j - k) as nat));
        assert(pow10((j + 1) as nat) == 10 * pow10(j as nat));
        proof {
            lemma_pow10_le((j + 1) as nat, 9);
        }
        assert(digits_value(g) * (10 * pow10((j - k) as nat)) == 10 * (digits_value(g) * pow10(
            (j - k) as nat,
        ))) by (nonlinear_arith);
        val = val * 10;
        j = j + 1;
    }
    val
}

fn seconds_in_range(v: &Vec<char>, lo: usize, hi: usize) -> (r: Option<u64>)
    requires
        lo <= hi <= v@.len(),
    ensures
        match r {
            Some(x) => seconds_nanos(v@.subrange(lo as int, hi as int)) == Some(x as int) && x
                < 60_000_000_000,
            None => seconds_nanos(v@.subrange(lo as int, hi as int)) is None,
        },
{
    let ghost s = v@.subrange(lo as int, hi as int);
    let q = split_ranges(v, lo, hi, '.');
    let ghost qs = split_on(s, '.');
    if q.len() != 1 && q.len() != 2 {
        return None;
    }
    assert(qs[0] == v@.subrange(q@[0].0 as int, q@[0].1 as int));
    let whole = match parse_digits(v, q[0].0, q[0].1) {
        Some(x) => x,
        None => {
            proof {
                if all_digits(qs[0]) {
                    lemma_digits_value_nonneg(qs[0]);
                }
            }
            return None;
        },
    };
    proof {
        lemma_digits_value_nonneg(qs[0]);
    }
    if whole > 59 {
        return None;
    }
    if q.len() == 1 {
        return Some(whole * 1_000_000_000);
    }
    assert(qs[1] == v@.subrange(q@[1].0 as int, q@[1].1 as int));
    if q[1].0 == q[1].1 {
        return None;
    }
    if parse_digits(v, q[1].0, q[1].1).is_none() {
        // digits that do not fit a u64 are still a fraction: look at each one
        let mut i = q[1].0;
        while i < q[1].1
            invariant
                q@.len() == 2,
                qs.len() == 2,
                qs == split_on(v@.subrange(lo as int, hi as int), '.'),
                qs[1] == v@.subrange(q@[1].0 as int, q@[1].1 as int),
                lo <= q@[1].0 <= i <= q@[1].1 <= hi <= v@.len(),
                forall|j: int| q@[1].0 <= j < i ==> is_digit(#[trigger] v@[j]),
            decreases q[1].1 - i,
        {
            if !('0' <= v[i] && v[i] <= '9') {
                assert(!is_digit(qs[1][i - q@[1].0]));
                return None;
            }
            i = i + 1;
        }
        assert forall|j: int| 0 <= j < qs[1].len() implies is_digit(#[trigger] qs[1][j]) by {
            assert(qs[1][j] == v@[q@[1].0 + j]);
        }
    }
    let f = fraction_in_range(v, q[1].0, q[1].1);
    Some(whole * 1_000_000_000 + f)
}

fn clock_in_range(v: &Vec<char>, lo: usize, hi: usize) -> (r: Option<u64>)
    requires
        lo <= hi <= v@.len(),
    ensures
        match r {
            Some(x) => clock_nanos(v@.subrange(lo as int, hi as int)) == Some(x as int),
            None => clock_nanos(v@.subrange(lo as int, hi as int)) is None,
        },
{
    let ghost s = v@.subrange(lo as int, hi as int);
    let t = split_ranges(v, lo, hi, ':');
    let ghost ts = split_on(s, ':');
    if t.len() != 2 && t.len() != 3 {
        return None;
    }
    assert(ts[0] == v@.subrange(t@[0].0 as int, t@[0].1 as int));
    assert(ts[1] == v@.subrange(t@[1].0 as int, t@[1].1 as int));
    proof {
        if all_digits(ts[0]) {
            lemma_digits_value_nonneg(ts[0]);
        }
        if all_digits(ts[1]) {
            lemma_digits_value_nonneg(ts[1]);
        }
    }
    let h = match parse_digits(v, t[0].0, t[0].1) {
        Some(x) => x,
        None => {
            return None;
        },
    };
    let m = match parse_digits(v, t[1].0, t[1].1) {
        Some(x) => x,
        None => {
            return None;
        },
    };
    if h > 23 || m > 59 {
        return None;
    }
    let base: u64 = (h * 3600 + m * 60) * 1_000_000_000;
    if t.len() == 2 {
        return Some(base);
    }
    assert(ts[2] == v@.subrange(t@[2].0 as int, t@[2].1 as int));
    match seconds_in_range(v, t[2].0, t[2].1) {
        Some(sn) => Some(base + sn),
        None => None,
    }
}

/// Nanoseconds since the epoch of an ISO date and time, `YYYY-MM-DD` then a space or
/// `T` then `HH:MM[:SS[.fraction]]`, with an optional trailing `Z`.
pub fn iso_datetime_in_range(v: &Vec<char>, lo: usize, hi: usize) -> (r: Option<i64>)
    requires
        lo <= hi <= v@.len(),
    ensures
        r == iso_datetime_nanos(v@.subrange(lo as int, hi as int)),
{
    let ghost s = v@.subrange(lo as int, hi as int);
    let mut w: Vec<char> = Vec::new();
    let mut i = lo;
    while i < hi
        invariant
            lo <= i <= hi <= v@.len(),
            w@ == v@.subrange(lo as int, i as int).map_values(|c: char| t_as_space(c)),
        decreases hi - i,
    {
        let c = v[i];
        w.push(if c == 'T' { ' ' } else { c });
        assert(v@.subrange(lo as int, i + 1).map_values(|c: char| t_as_space(c)) =~= v@.subrange(
            lo as int,
            i as int,
        ).map_values(|c: char| t_as_space(c)).push(t_as_space(c)));
        i = i + 1;
    }
    let ghost ws = s.map_values(|c: char| t_as_space(c));
    assert(w@ =~= ws);
    assert(w@.subrange(0, w@.len() as int) =~= ws);
    let p = split_ranges(&w, 0, w.len(), ' ');
    let ghost ps = split_on(ws, ' ');
    if p.len() != 2 {
        return None;
    }
    assert(ps[0] == w@.subrange(p@[0].0 as int, p@[0].1 as int));
    assert(ps[1] == w@.subrange(p@[1].0 as int, p@[1].1 as int));
    let d = date_in_range(&w, p[0].0, p[0].1, DateFormat::YearMonthDayDash);
    let (a, mut b) = p[1];
    if a < b && w[b - 1] == 'Z' {
        assert(w@.subrange(a as int, b - 1) =~= ps[1].drop_last());
        b = b - 1;
    }
    assert(w@.subrange(a as int, b as int) == without_zone(ps[1]));
    let c = clock_in_range(&w, a, b);
    match (d, c) {
        (Some(d), Some(c)) => {
            let total: i128 = d as i128 * 86_400_000_000_000 + c as i128;
            if total < i64::MIN as i128 || total > i64::MAX as i128 {
                None
            } else {
                Some(total as i64)
            }
        },
        _ => None,
    }
}

/// Nanoseconds since the epoch of an ISO date and time (see `iso_datetime_nanos`).
pub fn parse_iso_datetime(datetime_str: &str) -> (r: Option<i64>)
    ensures
        r == iso_datetime_nanos(datetime_str@),
{
    let v = chars_of(datetime_str);
    assert(v@.subrange(0, v@.len() as int) =~= datetime_str@);
    iso_datetime_in_range(&v, 0, v.len())
}

pub fn datetime_in_range(v: &Vec<char>, lo: usize, hi: usize) -> (r: Option<i64>)
    requires
        lo <= hi <= v@.len(),
    ensures
        r == datetime_nanos_trimmed(v@.subrange(lo as int, hi as int)),
{
    match parse_i64_range(v, lo, hi) {
        Some(n) => {
            let total: i128 = if n > 10_000_000_000 || n < -10_000_000_000 {
                n as i128 * 1_000_000
            } else {
                n as i128 * 1_000_000_000
            };
            if total < i64::MIN as i128 || total > i64::MAX as i128 {
                None
            } else {
                Some(total as i64)
            }
        },
        None => iso_datetime_in_range(v, lo, hi),
    }
}

/// Nanoseconds since the epoch that `s` writes once trimmed: a whole number is a Unix
/// time (milliseconds above ten billion in magnitude, else seconds), anything else
/// is read as an ISO date and time.
pub fn parse_datetime_to_nanos(s: &str) -> (r: Option<i64>)
    ensures
        r == datetime_nanos(s@),
{
    let v = chars_of(s);
    assert(v@.subrange(0, v@.len() as int) =~= s@);
    let (a, b) = trim_range(&v, 0, v.len());
    datetime_in_range(&v, a, b)
}

pub open spec fn e_folded(c: char) -> char {
    if c == 'E' {
        'e'
    } else {
        c
    }
}

/// Empty, or a run of digits.
pub open spec fn optional_digits(s: Seq<char>) -> bool {
    s.len() == 0 || all_digits(s)
}

/// `Digit+`, `Digit+ '.' Digit*` or `Digit* '.' Digit+`.
pub open spec fn is_mantissa(m: Seq<char>) -> bool {
    let p = split_on(m, '.');
    (p.len() == 1 && all_digits(p[0])) || (p.len() == 2 && optional_digits(p[0])
        && optional_digits(p[1]) && p[0].len() + p[1].len() > 0)
}

/// An optional sign, then digits.
pub open spec fn is_exponent(x: Seq<char>) -> bool {
    all_digits(x) || (x.len() > 0 && (x[0] == '+' || x[0] == '-') && all_digits(x.drop_first()))
}

/// A mantissa, then optionally `e` or `E` and an exponent.
pub open spec fn is_decimal_number(b: Seq<char>) -> bool {
    let me = split_on(b.map_values(|c: char| e_folded(c)), 'e');
    (me.len() == 1 || me.len() == 2) && is_mantissa(me[0]) && (me.len() == 2 ==> is_exponent(
        me[1],
    ))
}

pub open spec fn unsigned_part(s: Seq<char>) -> Seq<char> {
    if s.len() > 0 && (s[0] == '+' || s[0] == '-') {
        s.drop_first()
    } else {
        s
    }
}

/// The text is one that `f64`'s parser accepts: an optional sign, then `inf`,
/// `infinity` or `nan` in any ASCII case, or a decimal number.
pub open spec fn is_float_literal(s: Seq<char>) -> bool {
    let b = unsigned_part(s);
    same_ignoring_ascii_case(b, "inf"@) || same_ignoring_ascii_case(b, "infinity"@)
        || same_ignoring_ascii_case(b, "nan"@) || is_decimal_number(b)
}

fn all_digits_range(v: &Vec<char>, lo: usize, hi: usize) -> (r: bool)
    requires
        lo <= hi <= v@.len(),
    ensures
        r == all_digits(v@.subrange(lo as int, hi as int)),
{
    let ghost s = v@.subrange(lo as int, hi as int);
    if lo == hi {
        return false;
    }
    let mut i = lo;
    while i < hi
        invariant
            lo <= i <= hi <= v@.len(),
            s == v@.subrange(lo as int, hi as int),
            forall|j: int| lo <= j < i ==> is_digit(#[trigger] v@[j]),
        decreases hi - i,
    {
        if !('0' <= v[i] && v[i] <= '9') {
            assert(!is_digit(s[i - lo]));
            return false;
        }
        i = i + 1;
    }
    assert forall|j: int| 0 <= j < s.len() implies is_digit(#[trigger] s[j]) by {
        assert(s[j] == v@[lo + j]);
    }
    true
}

fn mantissa_range(v: &Vec<char>, lo: usize, hi: usize) -> (r: bool)
    requires
        lo <= hi <= v@.len(),
    ensures
        r == is_mantissa(v@.subrange(lo as int, hi as int)),
{
    let ghost s = v@.subrange(lo as int, hi as int);
    let p = split_ranges(v, lo, hi, '.');
    let ghost ps = split_on(s, '.');
    if p.len() == 1 {
        assert(ps[0] == v@.subrange(p@[0].0 as int, p@[0].1 as int));
        all_digits_range(v, p[0].0, p[0].1)
    } else if p.len() == 2 {
        assert(ps[0] == v@.subrange(p@[0].0 as int, p@[0].1 as int));
        assert(ps[1] == v@.subrange(p@[1].0 as int, p@[1].1 as int));
        let a = p[0].0 == p[0].1 || all_digits_range(v, p[0].0, p[0].1);
        let b = p[1].0 == p[1].1 || all_digits_range(v, p[1].0, p[1].1);
        a && b && (p[0].0 < p[0].1 || p[1].0 < p[1].1)
    } else {
        false
    }
}

fn exponent_range(v: &Vec<char>, lo: usize, hi: usize) -> (r: bool)
    requires
        lo <= hi <= v@.len(),
    ensures
        r == is_exponent(v@.subrange(lo as int, hi as int)),
{
    let ghost s = v@.subrange(lo as int, hi as int);
    if all_digits_range(v, lo, hi) {
        return true;
    }
    if lo < hi && (v[lo] == '+' || v[lo] == '-') {
        assert(s[0] == v@[lo as int]);
        assert(s.drop_first() =~= v@.subrange(lo + 1, hi as int));
        all_digits_range(v, lo + 1, hi)
    } else {
        if lo < hi {
            assert(s[0] == v@[lo as int]);
        }
        false
    }
}

fn decimal_number_range(v: &Vec<char>, lo: usize, hi: usize) -> (r: bool)
    requires
        lo <= hi <= v@.len(),
    ensures
        r == is_decimal_number(v@.subrange(lo as int, hi as int)),
{
    let ghost s = v@.subrange(lo as int, hi as int);
    let mut w: Vec<char> = Vec::new();
    let mut i = lo;
    while i < hi
        invariant
            lo <= i <= hi <= v@.len(),
            w@ == v@.subrange(lo as int, i as int).map_values(|c: char| e_folded(c)),
        decreases hi - i,
    {
        let c = v[i];
        w.push(if c == 'E' { 'e' } else { c });
        assert(v@.subrange(lo as int, i + 1).map_values(|c: char| e_folded(c)) =~= v@.subrange(
            lo as int,
            i as int,
        ).map_values(|c: char| e_folded(c)).push(e_folded(c)));
        i = i + 1;
    }
    let ghost ws = s.map_values(|c: char| e_folded(c));
    assert(w@ =~= ws);
    assert(w@.subrange(0, w@.len() as int) =~= ws);
    let me = split_ranges(&w, 0, w.len(), 'e');
    let ghost ms = split_on(ws, 'e');
    if me.len() != 1 && me.len() != 2 {
        return false;
    }
    assert(ms[0] == w@.subrange(me@[0].0 as int, me@[0].1 as int));
    if !mantissa_range(&w, me[0].0, me[0].1) {
        return false;
    }
    if me.len() == 2 {
        assert(ms[1] == w@.subrange(me@[1].0 as int, me@[1].1 as int));
        exponent_range(&w, me[1].0, me[1].1)
    } else {
        true
    }
}

/// Whether `v[lo..hi]` is a literal that `f64`'s parser accepts.
pub fn float_literal_range(v: &Vec<char>, lo: usize, hi: usize) -> (r: bool)
    requires
        lo <= hi <= v@.len(),
    ensures
        r == is_float_literal(v@.subrange(lo as int, hi as int)),
{
    let ghost s = v@.subrange(lo as int, hi as int);
    let mut a = lo;
    if lo < hi && (v[lo] == '+' || v[lo] == '-') {
        assert(s[0] == v@[lo as int]);
        assert(s.drop_first() =~= v@.subrange(lo + 1, hi as int));
        a = lo + 1;
    } else if lo < hi {
        assert(s[0] == v@[lo as int]);
    }
    assert(unsigned_part(s) == v@.subrange(a as int, hi as int));
    range_eq_ignore_ascii_case(v, a, hi, "inf") || range_eq_ignore_ascii_case(v, a, hi, "infinity")
        || range_eq_ignore_ascii_case(v, a, hi, "nan") || decimal_number_range(v, a, hi)
}

/// What the text of a field becomes under the declared type `t`: null when it is
/// blank or does not read as `t`.
pub open spec fn coerce_text(s: Seq<char>, t: DataType) -> FieldModel {
    let x = trimmed(s);
    if x.len() == 0 {
        FieldModel::Null
    } else {
        match t {
            DataType::String => FieldModel::Str(x),
            DataType::Integer => match i64_literal(x) {
                Some(i) => FieldModel::Int(i),
                None => FieldModel::Null,
            },
            DataType::Float => if is_float_literal(x) {
                FieldModel::Float(x)
            } else {
                FieldModel::Null
            },
            DataType::Boolean => match boolean_word(x) {
                Some(b) => FieldModel::Bool(b),
                None => FieldModel::Null,
            },
            DataType::Date => match date_days_trimmed(x) {
                Some(d) => FieldModel::Date(d),
                None => FieldModel::Null,
            },
            DataType::DateTime | DataType::Timestamp => match datetime_nanos_trimmed(x) {
                Some(n) => FieldModel::Timestamp(n),
                None => FieldModel::Null,
            },
        }
    }
}

/// Coerces the text `v[lo..hi]` of one field to a value of the declared type.
pub fn coerce_range(v: &Vec<char>, lo: usize, hi: usize, t: DataType) -> (r: FieldValue)
    requires
        lo <= hi <= v@.len(),
    ensures
        r@ == coerce_text(v@.subrange(lo as int, hi as int), t),
{
    let (a, b) = trim_range(v, lo, hi);
    if a == b {
        return FieldValue::Null;
    }
    match t {
        DataType::String => FieldValue::Str(string_of(v, a, b)),
        DataType::Integer => match parse_i64_range(v, a, b) {
            Some(i) => FieldValue::Int(i),
            None => FieldValue::Null,
        },
        DataType::Float => if float_literal_range(v, a, b) {
            FieldValue::Float(string_of(v, a, b))
        } else {
            FieldValue::Null
        },
        DataType::Boolean => match boolean_in_range(v, a, b) {
            Some(x) => FieldValue::Bool(x),
            None => FieldValue::Null,
        },
        DataType::Date => match date_days_in_range(v, a, b) {
            Some(d) => FieldValue::Date(d),
            None => FieldValue::Null,
        },
        DataType::DateTime | DataType::Timestamp => match datetime_in_range(v, a, b) {
            Some(n) => FieldValue::Timestamp(n),
            None => FieldValue::Null,
        },
    }
}

/// Coerces the text of one field to a value of the declared type `t`.
pub fn coerce_field(text: &str, t: DataType) -> (r: FieldValue)
    ensures
        r@ == coerce_text(text@, t),
{
    let v = chars_of(text);
    assert(v@.subrange(0, v@.len() as int) =~= text@);
    coerce_range(&v, 0, v.len(), t)
}

} // verus!
