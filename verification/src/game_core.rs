//! Core game model: the game calendar (twelve months of thirty days), cultivation realms
//! and characters.

use crate::numfmt::{format_zero_padded, zero_padded};
use vstd::prelude::*;
use vstd::string::StringExecFns;

verus! {

/// Realms of cultivation, from lowest to highest.
#[derive(Clone, Copy, Debug, PartialEq, Eq)]
pub enum Realm {
    /// Mortal.
    Mortal,
    /// Qi refining.
    QiRefining,
    /// Foundation building.
    Foundation,
    /// Golden core.
    GoldenCore,
    /// Nascent soul.
    NascentSoul,
}

/// A character.
#[derive(Clone, Debug)]
pub struct Character {
    /// Name.
    pub name: String,
    /// Age in years.
    pub age: u8,
}

/// The serial number of a date of the game calendar: the days from day 1 of month 1 of
/// year 0, with twelve months of thirty days a year.
pub open spec fn day_number(year: int, month: int, day: int) -> int {
    (year * 12 + (month - 1)) * 30 + (day - 1)
}

/// How many times thirty days are carried into the month for a day of the month `d`.
pub open spec fn months_carried(d: int) -> int {
    if d > 30 {
        (d - 1) / 30
    } else {
        0
    }
}

/// How many times twelve months are carried into the year for a month `m`.
pub open spec fn years_carried(m: int) -> int {
    if m > 12 {
        (m - 1) / 12
    } else {
        0
    }
}

/// The date `days` days after `(year, month, day)`: days beyond the thirtieth are carried
/// into months, and months beyond the twelfth into years.
pub open spec fn date_after(year: int, month: int, day: int, days: int) -> (int, int, int) {
    let d = day + days;
    let k = months_carried(d);
    let m = month + k;
    let j = years_carried(m);
    (year + j, m - 12 * j, d - 30 * k)
}

/// Whether a date is in the calendar's range: months 1 to 12, days 1 to 30.
pub open spec fn is_proper_date(date: (int, int, int)) -> bool {
    1 <= date.1 <= 12 && 1 <= date.2 <= 30
}

/// The date `days` days after `(year, month, day)`, carrying as the game clock does: thirty
/// days make a month and twelve months a year. Any number of days can be added; only the
/// year must stay within `i32`.
pub fn advance_date(year: i32, month: u8, day: u8, days: u64) -> (r: (i32, u8, u8))
    requires
        year + years_carried(month + months_carried(day + days)) <= i32::MAX,
    ensures
        (r.0 as int, r.1 as int, r.2 as int) == date_after(year as int, month as int, day as int, days as int),
{
    let total: u128 = day as u128 + days as u128;
    let k: u128 = if total > 30 {
        (total - 1) / 30
    } else {
        0
    };
    proof {
        if total > 30 {
            assert(30 * k <= total - 1 && total - 1 < 30 * k + 30) by (nonlinear_arith)
                requires
                    k == (total - 1) / 30,
                    total > 30,
            ;
        }
    }
    let m: u128 = month as u128 + k;
    let j: u128 = if m > 12 {
        (m - 1) / 12
    } else {
        0
    };
    proof {
        if m > 12 {
            assert(12 * j <= m - 1 && m - 1 < 12 * j + 12) by (nonlinear_arith)
                requires
                    j == (m - 1) / 12,
                    m > 12,
            ;
        }
        assert(k == months_carried(day + days));
        assert(j == years_carried(month + months_carried(day + days)));
    }
    let d_out: u128 = total - 30 * k;
    let m_out: u128 = m - 12 * j;
    let y_out: i128 = year as i128 + j as i128;
    (y_out as i32, m_out as u8, d_out as u8)
}

/// Carrying keeps the serial day number: the date `days` days later has the number
/// `days` higher.
pub proof fn law_date_after_counts_days(year: int, month: int, day: int, days: int)
    ensures
        ({
            let r = date_after(year, month, day, days);
            day_number(r.0, r.1, r.2) == day_number(year, month, day) + days
        }),
{
    let d = day + days;
    let k = months_carried(d);
    let m = month + k;
    let j = years_carried(m);
    assert(((year + j) * 12 + (m - 12 * j - 1)) * 30 + (d - 30 * k - 1) == (year * 12 + (month - 1))
        * 30 + (day - 1) + days) by (nonlinear_arith)
        requires
            m == month + k,
            d == day + days,
    ;
}

/// Carrying brings a date into range: when the day of the month reached is at least 1,
/// and so is the month reached after carrying days, the date is proper.
pub proof fn law_date_after_is_proper(year: int, month: int, day: int, days: int)
    requires
        day + days >= 1,
        month + months_carried(day + days) >= 1,
    ensures
        is_proper_date(date_after(year, month, day, days)),
{
    let d = day + days;
    let k = months_carried(d);
    if d > 30 {
        assert(1 <= d - 30 * ((d - 1) / 30) <= 30) by (nonlinear_arith)
            requires
                d > 30,
        ;
    }
    let m = month + k;
    if m > 12 {
        assert(1 <= m - 12 * ((m - 1) / 12) <= 12) by (nonlinear_arith)
            requires
                m > 12,
        ;
    }
}

/// Carrying from `x + b` takes the carries from `x` and then those from what is left of
/// `x` plus `b`.
proof fn lemma_carry_shift(x: int, b: int, base: int)
    requires
        base > 0,
        b >= 0,
    ensures
        ({
            let k = if x > base { (x - 1) / base } else { 0 };
            let kk = if x + b > base { (x + b - 1) / base } else { 0 };
            let r = x - base * k + b;
            &&& kk >= k
            &&& (if r > base { (r - 1) / base } else { 0 }) == kk - k
        }),
{
    if x > base {
        let k = (x - 1) / base;
        assert(1 <= x - base * k <= base && k >= 1) by (nonlinear_arith)
            requires
                x > base,
                base > 0,
                k == (x - 1) / base,
        ;
        let r = x - base * k + b;
        let kk = (x + b - 1) / base;
        assert(kk >= k) by (nonlinear_arith)
            requires
                base > 0,
                b >= 0,
                k == (x - 1) / base,
                kk == (x + b - 1) / base,
        ;
        if r > base {
            assert((r - 1) / base == kk - k) by (nonlinear_arith)
                requires
                    base > 0,
                    r == x - base * k + b,
                    kk == (x + b - 1) / base,
            ;
        } else {
            assert(kk == k) by (nonlinear_arith)
                requires
                    base > 0,
                    r == x - base * k + b,
                    r <= base,
                    r >= 1,
                    kk == (x + b - 1) / base,
            ;
        }
    }
}

/// Advancing a date by `a` days and then by `b` days gives the date `a + b` days later.
pub proof fn law_date_after_is_additive(year: int, month: int, day: int, a: int, b: int)
    requires
        0 <= a,
        0 <= b,
    ensures
        ({
            let first = date_after(year, month, day, a);
            date_after(first.0, first.1, first.2, b) == date_after(year, month, day, a + b)
        }),
{
    let d = day + a;
    let k = months_carried(d);
    let m = month + k;
    let j = years_carried(m);
    lemma_carry_shift(d, b, 30);
    let kk = months_carried(d + b);
    lemma_carry_shift(m, kk - k, 12);
    assert(day + (a + b) == d + b);
}

/// The text of a date and hour: `YYYY年MM月DD日 HH:00`, each number zero-padded (the year
/// to four characters, the others to two).
pub open spec fn date_time_text_spec(year: int, month: int, day: int, hour: int) -> Seq<char> {
    zero_padded(year, 4) + "年"@ + zero_padded(month, 2) + "月"@ + zero_padded(day, 2) + "日 "@
        + zero_padded(hour, 2) + ":00"@
}

/// Writes a date and hour as `YYYY年MM月DD日 HH:00`.
pub fn date_time_text(year: i32, month: u8, day: u8, hour: i32) -> (s: String)
    ensures
        s@ == date_time_text_spec(year as int, month as int, day as int, hour as int),
{
    let mut s = format_zero_padded(year as i64, 4);
    s.append("年");
    let m = format_zero_padded(month as i64, 2);
    s.append(m.as_str());
    s.append("月");
    let d = format_zero_padded(day as i64, 2);
    s.append(d.as_str());
    s.append("日 ");
    let h = format_zero_padded(hour as i64, 2);
    s.append(h.as_str());
    s.append(":00");
    s
}

} // verus!
