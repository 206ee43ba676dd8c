//! Calendar dates of day counts, and the `YYYYMMDD-HHmmss` timestamps that
//! name backups (China Standard Time, UTC+8).

use vstd::prelude::*;
use crate::text::{decimal_text, push_char, push_decimal};

verus! {

/// Whether `y` is a Gregorian leap year.
pub open spec fn is_leap(y: int) -> bool {
    (y % 4 == 0 && y % 100 != 0) || y % 400 == 0
}

/// The number of days of the year `y`.
pub open spec fn year_len(y: int) -> int {
    if is_leap(y) {
        366
    } else {
        365
    }
}

/// The number of days of month `m` (1 to 12) of the year `y`.
pub open spec fn month_len(y: int, m: int) -> int {
    if m == 2 {
        if is_leap(y) {
            29
        } else {
            28
        }
    } else if m == 4 || m == 6 || m == 9 || m == 11 {
        30
    } else {
        31
    }
}

/// The number of days from 1970-01-01 to the first day of the year `y`
/// (`y` from 1970 on).
pub open spec fn days_before_year(y: int) -> int
    decreases y - 1970,
{
    if y <= 1970 {
        0
    } else {
        days_before_year(y - 1) + year_len(y - 1)
    }
}

/// The number of days of the year `y` before the month `m + 1`: the days of
/// its first `m` months.
pub open spec fn days_before_month(y: int, m: int) -> int
    decreases m,
{
    if m <= 0 {
        0
    } else {
        days_before_month(y, m - 1) + month_len(y, m)
    }
}

/// Whether `(y, m, d)` is the calendar date of day number `days`, counted
/// from 0 on 1970-01-01.
pub open spec fn is_date_of(days: int, y: int, m: int, d: int) -> bool {
    &&& y >= 1970
    &&& 1 <= m <= 12
    &&& 1 <= d <= month_len(y, m)
    &&& days == days_before_year(y) + days_before_month(y, m - 1) + d - 1
}

proof fn lemma_year_is_its_months(y: int)
    ensures
        days_before_month(y, 12) == year_len(y),
{
    reveal_with_fuel(days_before_month, 13);
}

proof fn lemma_days_before_year_step(y: int)
    requires
        y >= 1970,
    ensures
        days_before_year(y + 1) == days_before_year(y) + year_len(y),
{
}

/// The date of day number `days` (from 0 on 1970-01-01): year, month from 1
/// and day of month from 1.
pub fn days_to_ymd(days: i64) -> (r: (i64, u32, u32))
    requires
        days >= 0,
    ensures
        is_date_of(days as int, r.0 as int, r.1 as int, r.2 as int),
{
    let mut y: i64 = 1970;
    let mut d: i64 = days;
    loop
        invariant
            y >= 1970,
            0 <= d <= days,
            d == days - days_before_year(y as int),
            365 * (y - 1970) <= days - d,
        ensures
            y >= 1970,
            0 <= d < year_len(y as int),
            d == days - days_before_year(y as int),
        decreases d,
    {
        let leap = (y % 4 == 0 && y % 100 != 0) || (y % 400 == 0);
        let yd: i64 = if leap { 366 } else { 365 };
        if d < yd {
            break;
        }
        d = d - yd;
        proof {
            lemma_days_before_year_step(y as int);
        }
        y = y + 1;
    }
    let leap = (y % 4 == 0 && y % 100 != 0) || (y % 400 == 0);
    let mdays: [u32; 12] = [31, if leap { 29 } else { 28 }, 31, 30, 31, 30, 31, 31, 30, 31, 30, 31];
    assert(forall|i: int| 0 <= i < 12 ==> mdays@[i] == month_len(y as int, i + 1));
    proof {
        lemma_year_is_its_months(y as int);
    }
    let mut mo: u32 = 0;
    let mut rem: u32 = d as u32;
    while (mo as usize) < mdays.len() && rem >= mdays[mo as usize]
        invariant
            mo <= 12,
            forall|i: int| 0 <= i < 12 ==> mdays@[i] == month_len(y as int, i + 1),
            rem == d - days_before_month(y as int, mo as int),
            d < days_before_month(y as int, 12),
        decreases 12 - mo,
    {
        rem = rem - mdays[mo as usize];
        mo = mo + 1;
    }
    if mo >= 12 {
        assert(false);
    }
    (y, mo + 1, rem + 1)
}

/// `s` with `'0'`s in front up to the width `w`.
pub open spec fn zero_padded(s: Seq<char>, w: nat) -> Seq<char> {
    if s.len() < w {
        Seq::new((w - s.len()) as nat, |i: int| '0') + s
    } else {
        s
    }
}

/// The backup timestamp of `secs` seconds since the Unix epoch, shifted to
/// UTC+8: `YYYYMMDD-HHmmss`, the year with at least four digits.
pub open spec fn timestamp_text(secs: int) -> Seq<char> {
    let t = secs + 8 * 3600;
    let days = t / 86400;
    let rem = t % 86400;
    let ymd = choose|y: int, m: int, d: int| is_date_of(days, y, m, d);
    zero_padded(decimal_text(ymd.0 as nat), 4) + zero_padded(decimal_text(ymd.1 as nat), 2) + zero_padded(
        decimal_text(ymd.2 as nat),
        2,
    ) + seq!['-'] + zero_padded(decimal_text((rem / 3600) as nat), 2) + zero_padded(
        decimal_text(((rem % 3600) / 60) as nat),
        2,
    ) + zero_padded(decimal_text((rem % 60) as nat), 2)
}

/// A day number has one date.
pub proof fn lemma_date_unique(days: int, y1: int, m1: int, d1: int, y2: int, m2: int, d2: int)
    requires
        is_date_of(days, y1, m1, d1),
        is_date_of(days, y2, m2, d2),
    ensures
        y1 == y2 && m1 == m2 && d1 == d2,
{
    lemma_earlier_year(days, y1, m1, d1, y2, m2, d2);
    lemma_earlier_year(days, y2, m2, d2, y1, m1, d1);
    if m1 < m2 {
        lemma_month_start_grows(y1, m1, m2 - 1);
    } else if m2 < m1 {
        lemma_month_start_grows(y1, m2, m1 - 1);
    }
}

proof fn lemma_earlier_year(days: int, y1: int, m1: int, d1: int, y2: int, m2: int, d2: int)
    requires
        is_date_of(days, y1, m1, d1),
        is_date_of(days, y2, m2, d2),
    ensures
        y1 >= y2,
{
    if y1 < y2 {
        lemma_year_start_grows(y1, y2);
        lemma_day_of_year_bound(y1, m1);
        lemma_month_start_grows(y2, 0, m2 - 1);
    }
}

proof fn lemma_year_start_grows(a: int, b: int)
    requires
        1970 <= a < b,
    ensures
        days_before_year(b) >= days_before_year(a) + year_len(a),
    decreases b - a,
{
    if b > a + 1 {
        lemma_year_start_grows(a, b - 1);
    }
}

proof fn lemma_month_start_grows(y: int, a: int, b: int)
    requires
        0 <= a <= b,
    ensures
        days_before_month(y, b) >= days_before_month(y, a),
    decreases b - a,
{
    if b > a {
        lemma_month_start_grows(y, a, b - 1);
    }
}

proof fn lemma_day_of_year_bound(y: int, m: int)
    requires
        1 <= m <= 12,
    ensures
        days_before_month(y, m - 1) + month_len(y, m) <= year_len(y),
{
    lemma_year_is_its_months(y);
    lemma_month_start_grows(y, m, 12);
}

proof fn lemma_decimal_len(n: nat)
    ensures
        n < 10 ==> decimal_text(n).len() == 1,
        10 <= n < 100 ==> decimal_text(n).len() == 2,
        100 <= n < 1000 ==> decimal_text(n).len() == 3,
        n >= 1000 ==> decimal_text(n).len() >= 4,
    decreases n,
{
    if n >= 10 {
        lemma_decimal_len(n / 10);
    }
}

fn push_padded(s: &mut String, n: u64, w: usize)
    requires
        w <= 4,
    ensures
        final(s)@ == old(s)@ + zero_padded(decimal_text(n as nat), w as nat),
{
    let ghost t = decimal_text(n as nat);
    proof {
        lemma_decimal_len(n as nat);
    }
    let digits: usize = if n < 10 {
        1
    } else if n < 100 {
        2
    } else if n < 1000 {
        3
    } else {
        4
    };
    assert(digits < 4 ==> t.len() == digits);
    assert(digits == 4 ==> t.len() >= 4);
    let mut k: usize = digits;
    let ghost start = s@;
    assert(Seq::new(0nat, |i: int| '0') =~= Seq::<char>::empty());
    assert(s@ =~= start + Seq::new((k - digits) as nat, |i: int| '0'));
    while k < w
        invariant
            digits <= k,
            k <= w || k == digits,
            w <= 4,
            digits < 4 ==> t.len() == digits,
            s@ == start + Seq::new((k - digits) as nat, |i: int| '0'),
        decreases w - k,
    {
        push_char(s, '0');
        assert(s@ =~= start + Seq::new((k + 1 - digits) as nat, |i: int| '0'));
        k = k + 1;
    }
    push_decimal(s, n);
    assert(s@ =~= old(s)@ + zero_padded(t, w as nat));
}

/// The backup timestamp of `secs` seconds since the Unix epoch (see
/// `timestamp_text`).
pub fn format_timestamp_secs(secs: u64) -> (r: String)
    requires
        secs + 8 * 3600 <= u64::MAX,
    ensures
        r@ == timestamp_text(secs as int),
{
    let t = secs + 8 * 3600;
    let days = t / 86400;
    let rem = t % 86400;
    let h = rem / 3600;
    let m = (rem % 3600) / 60;
    let s = rem % 60;
    let (y, mo, d) = days_to_ymd(days as i64);
    proof {
        let ymd = choose|yy: int, mm: int, dd: int| is_date_of(days as int, yy, mm, dd);
        assert(is_date_of(days as int, y as int, mo as int, d as int));
        lemma_date_unique(days as int, y as int, mo as int, d as int, ymd.0, ymd.1, ymd.2);
    }
    let mut out = String::new();
    push_padded(&mut out, y as u64, 4);
    push_padded(&mut out, mo as u64, 2);
    push_padded(&mut out, d as u64, 2);
    push_char(&mut out, '-');
    push_padded(&mut out, h, 2);
    push_padded(&mut out, m, 2);
    push_padded(&mut out, s, 2);
    out
}

} // verus!
