use vstd::prelude::*;

use crate::text::{decimal_nat, decimal_u64, push_chars, string_of};

verus! {

// ---------------------------------------------------------------------------
// Specification: the proleptic Gregorian calendar from 1970 on, in UTC
// ---------------------------------------------------------------------------

/// A leap year of the Gregorian calendar.
pub open spec fn is_leap_year(y: int) -> bool {
    (y % 4 == 0 && y % 100 != 0) || y % 400 == 0
}

/// The number of days of year `y`.
pub open spec fn year_days(y: int) -> int {
    if is_leap_year(y) {
        366
    } else {
        365
    }
}

/// The number of days of month `m` (1 to 12) of year `y`.
pub open spec fn month_days(y: int, m: int) -> int {
    if m == 2 {
        if is_leap_year(y) {
            29
        } else {
            28
        }
    } else if m == 4 || m == 6 || m == 9 || m == 11 {
        30
    } else {
        31
    }
}

/// The days from 1970-01-01 to the first day of year `y` (for `y >= 1970`).
pub open spec fn days_before_year(y: int) -> int
    decreases y - 1970,
{
    if y <= 1970 {
        0
    } else {
        days_before_year(y - 1) + year_days(y - 1)
    }
}

/// The days from the first day of year `y` to the first day of its month `m`.
pub open spec fn days_before_month(y: int, m: int) -> int
    decreases m,
{
    if m <= 1 {
        0
    } else {
        days_before_month(y, m - 1) + month_days(y, m - 1)
    }
}

/// The year and the day within it (from 0) of day `days` counted from the first day of year
/// `y`.
pub open spec fn year_and_day(days: int, y: int) -> (int, int)
    decreases days,
{
    if days < year_days(y) || days < 0 {
        (y, days)
    } else {
        year_and_day(days - year_days(y), y + 1)
    }
}

/// The month (1 to 12) and the day within it (from 0) of day `days` counted from the first
/// day of month `m` of year `y`.
pub open spec fn month_and_day(y: int, days: int, m: int) -> (int, int)
    decreases 12 - m,
{
    if m >= 12 || days < month_days(y, m) {
        (m, days)
    } else {
        month_and_day(y, days - month_days(y, m), m + 1)
    }
}

/// The decimal text of `n` with zeros in front up to `width` characters.
pub open spec fn zero_padded(n: nat, width: nat) -> Seq<char> {
    let d = decimal_nat(n);
    let pad: nat = if d.len() < width {
        (width - d.len()) as nat
    } else {
        0
    };
    Seq::new(pad, |i: int| '0') + d
}

/// The UTC date and time of `secs` seconds after 1970-01-01T00:00:00Z, written as
/// `YYYY-MM-DDTHH:MM:SSZ` (ISO 8601).
pub open spec fn utc_timestamp_text(secs: nat) -> Seq<char> {
    let days = secs / 86400;
    let rest = secs % 86400;
    let (y, yday) = year_and_day(days as int, 1970);
    let (m, mday) = month_and_day(y, yday, 1);
    zero_padded(y as nat, 4) + "-"@ + zero_padded(m as nat, 2) + "-"@ + zero_padded(
        (mday + 1) as nat,
        2,
    ) + "T"@ + zero_padded(rest / 3600, 2) + ":"@ + zero_padded((rest % 3600) / 60, 2) + ":"@
        + zero_padded(rest % 60, 2) + "Z"@
}

// ---------------------------------------------------------------------------
// Laws of the calendar
// ---------------------------------------------------------------------------

proof fn lemma_year_and_day(days: int, y: int)
    requires
        0 <= days,
        y >= 1970,
    ensures
        year_and_day(days, y).0 >= y,
        0 <= year_and_day(days, y).1 < year_days(year_and_day(days, y).0),
        days_before_year(year_and_day(days, y).0) + year_and_day(days, y).1 == days_before_year(y)
            + days,
    decreases days,
{
    if days >= year_days(y) {
        lemma_year_and_day(days - year_days(y), y + 1);
    }
}

proof fn lemma_month_and_day(y: int, days: int, m: int)
    requires
        1 <= m <= 12,
        0 <= days,
        days_before_month(y, m) + days < year_days(y),
    ensures
        m <= month_and_day(y, days, m).0 <= 12,
        0 <= month_and_day(y, days, m).1 < month_days(y, month_and_day(y, days, m).0),
        days_before_month(y, month_and_day(y, days, m).0) + month_and_day(y, days, m).1
            == days_before_month(y, m) + days,
    decreases 12 - m,
{
    if m < 12 && days >= month_days(y, m) {
        lemma_month_and_day(y, days - month_days(y, m), m + 1);
    } else if m >= 12 {
        assert(days_before_month(y, 12) == year_days(y) - 31) by {
            reveal_with_fuel(days_before_month, 12);
        }
    }
}

/// The timestamp names the calendar date and time that lies `secs` seconds after the epoch:
/// a year from 1970 on, a month from 1 to 12, a day within that month, an hour, minute and
/// second in range, which together count exactly `secs` seconds.
pub proof fn lemma_utc_timestamp_denotes(secs: nat)
    ensures
        ({
            let days = secs / 86400;
            let rest = secs % 86400;
            let (y, yday) = year_and_day(days as int, 1970);
            let (m, mday) = month_and_day(y, yday, 1);
            &&& y >= 1970
            &&& 1 <= m <= 12
            &&& 0 <= mday < month_days(y, m)
            &&& secs == (days_before_year(y) + days_before_month(y, m) + mday) * 86400 + (rest
                / 3600) * 3600 + ((rest % 3600) / 60) * 60 + rest % 60
        }),
{
    let days = secs / 86400;
    let rest = secs % 86400;
    lemma_year_and_day(days as int, 1970);
    let (y, yday) = year_and_day(days as int, 1970);
    lemma_month_and_day(y, yday, 1);
    let (m, mday) = month_and_day(y, yday, 1);
    assert(days_before_year(y) + days_before_month(y, m) + mday == days);
    assert(secs == days * 86400 + rest) by (nonlinear_arith)
        requires
            days == secs / 86400,
            rest == secs % 86400,
    ;
    assert(rest == (rest / 3600) * 3600 + ((rest % 3600) / 60) * 60 + rest % 60) by (
    nonlinear_arith);
}

// ---------------------------------------------------------------------------
// Executable formatting
// ---------------------------------------------------------------------------

/// Appends the decimal text of `n` with zeros in front up to `width` characters.
fn push_zero_padded(out: &mut Vec<char>, n: u64, width: usize)
    ensures
        final(out)@ == old(out)@ + zero_padded(n as nat, width as nat),
{
    let d = decimal_u64(n);
    let ghost start = out@;
    let mut k: usize = d.len();
    while k < width
        invariant
            d.len() <= k <= if d.len() < width {
                width
            } else {
                d.len()
            },
            out@ == start + Seq::new((k - d.len()) as nat, |i: int| '0'),
        decreases width - k,
    {
        out.push('0');
        k = k + 1;
        assert(out@ =~= start + Seq::new((k - d.len()) as nat, |i: int| '0'));
    }
    push_chars(out, d.as_slice());
    assert(out@ =~= start + zero_padded(n as nat, width as nat));
}

fn leap(y: u64) -> (b: bool)
    ensures
        b == is_leap_year(y as int),
{
    (y % 4 == 0 && y % 100 != 0) || y % 400 == 0
}

fn days_of_year(y: u64) -> (n: u64)
    ensures
        n == year_days(y as int),
{
    if leap(y) {
        366
    } else {
        365
    }
}

fn days_of_month(y: u64, m: u64) -> (n: u64)
    ensures
        n == month_days(y as int, m as int),
{
    if m == 2 {
        if leap(y) {
            29
        } else {
            28
        }
    } else if m == 4 || m == 6 || m == 9 || m == 11 {
        30
    } else {
        31
    }
}

/// The UTC date and time of `secs` seconds after 1970-01-01T00:00:00Z, as
/// `YYYY-MM-DDTHH:MM:SSZ`.
pub fn format_utc_timestamp(secs: u64) -> (out: String)
    ensures
        out@ == utc_timestamp_text(secs as nat),
{
    let mut days: u64 = secs / 86400;
    let rest: u64 = secs % 86400;
    let mut y: u64 = 1970;
    while days >= days_of_year(y)
        invariant
            1970 <= y <= 1970 + secs / 86400,
            days <= secs / 86400,
            days + (y - 1970) <= secs / 86400,
            year_and_day(days as int, y as int) == year_and_day((secs / 86400) as int, 1970),
        decreases days,
    {
        days = days - days_of_year(y);
        y = y + 1;
    }
    let mut m: u64 = 1;
    let ghost yday = days;
    while m < 12 && days >= days_of_month(y, m)
        invariant
            1 <= m <= 12,
            days <= yday,
            month_and_day(y as int, days as int, m as int) == month_and_day(
                y as int,
                yday as int,
                1,
            ),
        decreases 12 - m,
    {
        days = days - days_of_month(y, m);
        m = m + 1;
    }
    let mut out: Vec<char> = Vec::new();
    push_zero_padded(&mut out, y, 4);
    out.push('-');
    push_zero_padded(&mut out, m, 2);
    out.push('-');
    push_zero_padded(&mut out, days + 1, 2);
    out.push('T');
    push_zero_padded(&mut out, rest / 3600, 2);
    out.push(':');
    push_zero_padded(&mut out, (rest % 3600) / 60, 2);
    out.push(':');
    push_zero_padded(&mut out, rest % 60, 2);
    out.push('Z');
    proof {
        reveal_strlit("-");
        reveal_strlit("T");
        reveal_strlit(":");
        reveal_strlit("Z");
    }
    assert(out@ =~= utc_timestamp_text(secs as nat));
    string_of(out.as_slice())
}

} // verus!
