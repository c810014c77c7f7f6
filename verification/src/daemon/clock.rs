//! UTC calendar dates of Unix times, and their RFC 3339 form.

use crate::text::{dec, push_all, push_str, string_from_chars, u64_to_dec};
use vstd::prelude::*;

verus! {

/// A leap year of the Gregorian calendar.
pub open spec fn is_leap(y: int) -> bool {
    (y % 4 == 0 && y % 100 != 0) || y % 400 == 0
}

/// The days of year `y`.
pub open spec fn year_days(y: int) -> int {
    if is_leap(y) { 366 } else { 365 }
}

/// The days of month `m` (counted from 0) of a year that is a leap year or not.
pub open spec fn month_days(leap: bool, m: int) -> int {
    if m == 1 {
        if leap { 29 } else { 28 }
    } else if m == 3 || m == 5 || m == 8 || m == 10 {
        30
    } else {
        31
    }
}

/// The year in which day `days` of year `y` falls, and the day within it.
pub open spec fn year_of(days: int, y: int) -> (int, int)
    decreases days,
{
    if days < year_days(y) || days < 0 {
        (y, days)
    } else {
        year_of(days - year_days(y), y + 1)
    }
}

/// The month (counted from 0) in which day `days` of a year falls, starting from month `m`,
/// and the day within it; twelve when the days run past the year.
pub open spec fn month_of(days: int, leap: bool, m: int) -> (int, int)
    decreases 12 - m,
{
    if m >= 12 || days < month_days(leap, m) {
        (m, days)
    } else {
        month_of(days - month_days(leap, m), leap, m + 1)
    }
}

/// The date of the day `days` after 1970-01-01: year, month and day, the last two counted
/// from 1.
pub open spec fn date_of(days: int) -> (int, int, int) {
    let (y, rest) = year_of(days, 1970);
    let (m, d) = month_of(rest, is_leap(y), 0);
    (y, m + 1, d + 1)
}

/// The days from 1970-01-01 to the start of year `y`.
pub open spec fn days_before_year(y: int) -> int
    decreases y - 1970,
{
    if y <= 1970 { 0 } else { days_before_year(y - 1) + year_days(y - 1) }
}

/// The days from the start of a year to the start of month `m` (counted from 0).
pub open spec fn days_before_month(leap: bool, m: int) -> int
    decreases m,
{
    if m <= 0 { 0 } else { days_before_month(leap, m - 1) + month_days(leap, m - 1) }
}

proof fn lemma_year_of(days: int, y: int)
    requires
        days >= 0,
        y >= 1970,
    ensures
        year_of(days, y).0 >= y,
        0 <= year_of(days, y).1 < year_days(year_of(days, y).0),
        days_before_year(year_of(days, y).0) + year_of(days, y).1 == days_before_year(y) + days,
    decreases days,
{
    if days >= year_days(y) {
        lemma_year_of(days - year_days(y), y + 1);
    }
}

proof fn lemma_month_of(days: int, leap: bool, m: int)
    requires
        0 <= m <= 12,
        0 <= days,
        days_before_month(leap, m) + days < if leap { 366int } else { 365int },
    ensures
        0 <= month_of(days, leap, m).0 < 12,
        0 <= month_of(days, leap, m).1 < month_days(leap, month_of(days, leap, m).0),
        days_before_month(leap, month_of(days, leap, m).0) + month_of(days, leap, m).1 == days_before_month(leap, m) + days,
    decreases 12 - m,
{
    if m >= 12 {
        assert(days_before_month(leap, 12) == if leap { 366int } else { 365int }) by {
            reveal_with_fuel(days_before_month, 13);
        }
    } else if days >= month_days(leap, m) {
        lemma_month_of(days - month_days(leap, m), leap, m + 1);
    }
}

/// The date of a day is a true date, and counting the days up to it gives the day back.
pub proof fn law_date_of_roundtrip(days: int)
    requires
        days >= 0,
    ensures
        date_of(days).0 >= 1970,
        1 <= date_of(days).1 <= 12,
        1 <= date_of(days).2 <= month_days(is_leap(date_of(days).0), date_of(days).1 - 1),
        days_before_year(date_of(days).0) + days_before_month(is_leap(date_of(days).0), date_of(days).1 - 1)
            + date_of(days).2 - 1 == days,
{
    lemma_year_of(days, 1970);
    let (y, rest) = year_of(days, 1970);
    assert(days_before_month(is_leap(y), 0) == 0);
    lemma_month_of(rest, is_leap(y), 0);
}

/// `s` padded on the left with `'0'` to at least `w` characters, as `{:0w}` pads a number.
pub open spec fn zero_pad(s: Seq<char>, w: int) -> Seq<char>
    decreases w - s.len(),
{
    if s.len() >= w { s } else { zero_pad(seq!['0'] + s, w) }
}

fn push_padded(out: &mut Vec<char>, n: u64, w: usize)
    ensures
        final(out)@ == old(out)@ + zero_pad(dec(n as nat), w as int),
{
    let digits = u64_to_dec(n);
    let mut s: Vec<char> = Vec::new();
    let mut k: usize = digits.len();
    while k < w
        invariant
            digits@ == dec(n as nat),
            s@.len() + digits@.len() == k,
            forall|i: int| 0 <= i < s@.len() ==> s@[i] == '0',
            zero_pad(s@ + digits@, w as int) == zero_pad(digits@, w as int),
        decreases w - k,
    {
        let ghost before = s@;
        s.push('0');
        proof {
            assert(zero_pad(before + digits@, w as int) == zero_pad(seq!['0'] + (before + digits@), w as int));
            assert(seq!['0'] + (before + digits@) =~= s@ + digits@) by {
                assert forall|i: int| 0 <= i < s@.len() implies s@[i] == '0' by {}
            }
        }
        k = k + 1;
    }
    proof { assert(zero_pad(s@ + digits@, w as int) == s@ + digits@); }
    push_all(out, s.as_slice());
    push_all(out, digits.as_slice());
    proof { assert(old(out)@ + s@ + digits@ =~= old(out)@ + (s@ + digits@)); }
}

/// The date and time of a Unix time in seconds, as `YYYY-MM-DDTHH:MM:SS` in UTC.
pub open spec fn rfc3339_body(secs: nat) -> Seq<char> {
    let (y, m, d) = date_of(secs as int / 86400);
    let t = secs % 86400;
    zero_pad(dec(y as nat), 4) + "-"@ + zero_pad(dec(m as nat), 2) + "-"@ + zero_pad(dec(d as nat), 2) + "T"@
        + zero_pad(dec(t / 3600), 2) + ":"@ + zero_pad(dec((t % 3600) / 60), 2) + ":"@ + zero_pad(dec(t % 60), 2)
}

fn date_exec(days: u64) -> (r: (u64, u64, u64))
    requires
        days <= 0x1_0000_0000_0000,
    ensures
        r.0 as int == date_of(days as int).0,
        r.1 as int == date_of(days as int).1,
        r.2 as int == date_of(days as int).2,
{
    let mut rest = days;
    let mut y: u64 = 1970;
    loop
        invariant
            1970 <= y <= 1970 + days - rest,
            rest <= days <= 0x1_0000_0000_0000,
            year_of(days as int, 1970) == year_of(rest as int, y as int),
        ensures
            1970 <= y <= 1970 + days,
            rest < year_days(y as int),
            year_of(days as int, 1970) == year_of(rest as int, y as int),
        decreases rest,
    {
        let leap = (y % 4 == 0 && y % 100 != 0) || y % 400 == 0;
        let dy: u64 = if leap { 366 } else { 365 };
        proof { assert(dy as int == year_days(y as int)); }
        if rest < dy {
            break;
        }
        rest = rest - dy;
        y = y + 1;
    }
    let leap = (y % 4 == 0 && y % 100 != 0) || y % 400 == 0;
    let ghost yr = year_of(days as int, 1970);
    proof {
        assert(year_of(rest as int, y as int) == (y as int, rest as int));
        assert(leap == is_leap(y as int));
        assert(days_before_month(leap, 0) == 0);
        lemma_month_of(rest as int, leap, 0);
    }
    let ghost target = month_of(rest as int, leap, 0);
    let ghost start = rest as int;
    let mut m: u64 = 0;
    loop
        invariant
            m < 12,
            rest as int <= start,
            start < year_days(y as int),
            leap == is_leap(y as int),
            target == month_of(start, leap, 0),
            month_of(start, leap, 0) == month_of(rest as int, leap, m as int),
            days_before_month(leap, m as int) + rest == start,
            0 <= target.0 < 12,
            0 <= target.1 < month_days(leap, target.0),
        ensures
            m as int == target.0,
            rest as int == target.1,
        decreases 12 - m,
    {
        let md: u64 = if m == 1 {
            if leap { 29 } else { 28 }
        } else if m == 3 || m == 5 || m == 8 || m == 10 {
            30
        } else {
            31
        };
        proof { assert(md as int == month_days(leap, m as int)); }
        if rest < md {
            break;
        }
        rest = rest - md;
        m = m + 1;
        proof {
            if m == 12 {
                assert(month_of(rest as int, leap, 12) == (12int, rest as int));
                assert(false);
            }
        }
    }
    (y, m + 1, rest + 1)
}

/// The Unix time `secs` as an RFC 3339 UTC timestamp: `YYYY-MM-DDTHH:MM:SSZ`.
pub fn rfc3339_utc(secs: u64) -> (r: String)
    ensures
        r@ == rfc3339_body(secs as nat) + "Z"@,
{
    let days = secs / 86400;
    let t = secs % 86400;
    proof { assert(days <= 0x1_0000_0000_0000) by (nonlinear_arith) requires days == secs / 86400, secs <= u64::MAX; }
    let (y, m, d) = date_exec(days);
    let mut out: Vec<char> = Vec::new();
    push_padded(&mut out, y, 4);
    push_str(&mut out, "-");
    push_padded(&mut out, m, 2);
    push_str(&mut out, "-");
    push_padded(&mut out, d, 2);
    push_str(&mut out, "T");
    push_padded(&mut out, t / 3600, 2);
    push_str(&mut out, ":");
    push_padded(&mut out, (t % 3600) / 60, 2);
    push_str(&mut out, ":");
    push_padded(&mut out, t % 60, 2);
    push_str(&mut out, "Z");
    proof {
        assert(out@ =~= rfc3339_body(secs as nat) + "Z"@);
    }
    string_from_chars(out.as_slice())
}

} // verus!
