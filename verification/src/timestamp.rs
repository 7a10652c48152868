//! Timestamp formatting for log lines: an instant given as milliseconds
//! since the Unix epoch is rendered as `YYYY-MM-DD HH:MM:SS.mmm` at a fixed
//! UTC+8 offset, whatever the host timezone.

use vstd::prelude::*;
use vstd::string::*;

use crate::digits::{u64_to_dec_pad, zero_pad};

verus! {

/// The fixed offset of the log timezone, in milliseconds east of UTC.
pub const UTC_OFFSET_MS: u64 = 28800000;

/// A leap year of the Gregorian calendar.
pub open spec fn is_leap(y: int) -> bool {
    (y % 4 == 0 && y % 100 != 0) || y % 400 == 0
}

pub open spec fn days_in_year(y: int) -> int {
    if is_leap(y) {
        366
    } else {
        365
    }
}

pub open spec fn days_in_month(y: int, m: int) -> int {
    if m == 2 {
        if is_leap(y) {
            29
        } else {
            28
        }
    } else if m == 4 || m == 6 || m == 9 || m == 11 {
        30
    } else {
        31
    }
}

/// Days from 1970-01-01 to the first day of year `y`.
pub open spec fn days_before_year(y: int) -> int
    decreases y - 1970,
{
    if y <= 1970 {
        0
    } else {
        days_before_year(y - 1) + days_in_year(y - 1)
    }
}

/// Days from the first day of year `y` to the first day of its month `m`.
pub open spec fn days_before_month(y: int, m: int) -> int
    decreases m,
{
    if m <= 1 {
        0
    } else {
        days_before_month(y, m - 1) + days_in_month(y, m - 1)
    }
}

/// Days from 1970-01-01 to the calendar date `y`-`m`-`d`.
pub open spec fn days_since_epoch(y: int, m: int, d: int) -> int {
    days_before_year(y) + days_before_month(y, m) + (d - 1)
}

/// A calendar date the epoch-based day count can denote.
pub open spec fn valid_date(y: int, m: int, d: int) -> bool {
    y >= 1970 && 1 <= m <= 12 && 1 <= d <= days_in_month(y, m)
}

proof fn lemma_days_before_year_lower(y: int)
    requires
        y >= 1970,
    ensures
        days_before_year(y) >= 365 * (y - 1970),
    decreases y - 1970,
{
    if y > 1970 {
        lemma_days_before_year_lower(y - 1);
    }
}

proof fn lemma_year_days_from_months(y: int)
    ensures
        days_before_month(y, 13) == days_in_year(y),
{
    assert(days_before_month(y, 1) == 0);
    assert(days_before_month(y, 2) == 31);
    assert(days_before_month(y, 3) == 31 + days_in_month(y, 2));
    assert(days_before_month(y, 4) == 62 + days_in_month(y, 2));
    assert(days_before_month(y, 5) == 92 + days_in_month(y, 2));
    assert(days_before_month(y, 6) == 123 + days_in_month(y, 2));
    assert(days_before_month(y, 7) == 153 + days_in_month(y, 2));
    assert(days_before_month(y, 8) == 184 + days_in_month(y, 2));
    assert(days_before_month(y, 9) == 215 + days_in_month(y, 2));
    assert(days_before_month(y, 10) == 245 + days_in_month(y, 2));
    assert(days_before_month(y, 11) == 276 + days_in_month(y, 2));
    assert(days_before_month(y, 12) == 306 + days_in_month(y, 2));
    assert(days_before_month(y, 13) == 337 + days_in_month(y, 2));
}

/// Splits a day count into the calendar date it denotes: the unique valid
/// date whose distance from 1970-01-01 is `days`.
fn civil_from_days(days: u64) -> (r: (u64, u64, u64))
    ensures
        valid_date(r.0 as int, r.1 as int, r.2 as int),
        days_since_epoch(r.0 as int, r.1 as int, r.2 as int) == days,
{
    let mut y: u64 = 1970;
    let mut rem: u64 = days;
    loop
        invariant
            1970 <= y,
            days_before_year(y as int) + rem == days,
            days_before_year(y as int) >= 365 * (y - 1970),
        ensures
            1970 <= y,
            days_before_year(y as int) + rem == days,
            rem < days_in_year(y as int),
        decreases rem,
    {
        let leap = (y % 4 == 0 && y % 100 != 0) || y % 400 == 0;
        let len: u64 = if leap {
            366
        } else {
            365
        };
        proof {
            assert(len as int == days_in_year(y as int));
        }
        if rem < len {
            break;
        }
        rem = rem - len;
        y = y + 1;
        proof {
            assert(days_before_year(y as int) == days_before_year(y as int - 1) + days_in_year(
                y as int - 1,
            ));
            lemma_days_before_year_lower(y as int);
        }
    }
    let leap = (y % 4 == 0 && y % 100 != 0) || y % 400 == 0;
    let mut m: u64 = 1;
    let ghost rem0 = rem as int;
    loop
        invariant
            1 <= m <= 12,
            leap == is_leap(y as int),
            1970 <= y,
            rem0 < days_in_year(y as int),
            days_before_month(y as int, m as int) + rem == rem0,
            days_before_year(y as int) + rem0 == days,
        ensures
            1 <= m <= 12,
            days_before_month(y as int, m as int) + rem == rem0,
            rem < days_in_month(y as int, m as int),
        decreases 12 - m,
    {
        let dim: u64 = if m == 2 {
            if leap {
                29
            } else {
                28
            }
        } else if m == 4 || m == 6 || m == 9 || m == 11 {
            30
        } else {
            31
        };
        proof {
            assert(dim as int == days_in_month(y as int, m as int));
        }
        if rem < dim {
            break;
        }
        if m == 12 {
            proof {
                lemma_year_days_from_months(y as int);
                assert(days_before_month(y as int, 13) == days_before_month(y as int, 12)
                    + days_in_month(y as int, 12));
                assert(false);
            }
        }
        rem = rem - dim;
        m = m + 1;
        proof {
            assert(days_before_month(y as int, m as int) == days_before_month(y as int, m as int - 1)
                + days_in_month(y as int, m as int - 1));
        }
    }
    (y, m, rem + 1)
}

/// The formatted timestamp of an instant, at UTC+8 with millisecond
/// precision. The date fields are the calendar date of the shifted instant;
/// `choose` picks the valid date at that day count, which
/// [`civil_from_days`] shows to exist.
pub open spec fn timestamp_rep(epoch_ms: int) -> Seq<char> {
    let t = epoch_ms + UTC_OFFSET_MS;
    let days = t / 86400000;
    let ms_of_day = t % 86400000;
    let ymd = choose|ymd: (int, int, int)|
        valid_date(ymd.0, ymd.1, ymd.2) && days_since_epoch(ymd.0, ymd.1, ymd.2) == days;
    zero_pad(ymd.0 as nat, 4) + "-"@ + zero_pad(ymd.1 as nat, 2) + "-"@ + zero_pad(ymd.2 as nat, 2)
        + " "@ + zero_pad((ms_of_day / 3600000) as nat, 2) + ":"@ + zero_pad(
        ((ms_of_day / 60000) % 60) as nat,
        2,
    ) + ":"@ + zero_pad(((ms_of_day / 1000) % 60) as nat, 2) + "."@ + zero_pad(
        (ms_of_day % 1000) as nat,
        3,
    )
}

/// Two valid dates at the same distance from the epoch are the same date,
/// so the date chosen in [`timestamp_rep`] is the one the conversion finds.
pub proof fn lemma_civil_unique(a: (int, int, int), b: (int, int, int))
    requires
        valid_date(a.0, a.1, a.2),
        valid_date(b.0, b.1, b.2),
        days_since_epoch(a.0, a.1, a.2) == days_since_epoch(b.0, b.1, b.2),
    ensures
        a == b,
{
    lemma_date_order(a, b);
    lemma_date_order(b, a);
    assert(a.0 == b.0 && a.1 == b.1 && a.2 == b.2);
}

/// A valid date strictly before another (in lexicographic order) is
/// strictly closer to the epoch.
proof fn lemma_date_order(a: (int, int, int), b: (int, int, int))
    requires
        valid_date(a.0, a.1, a.2),
        valid_date(b.0, b.1, b.2),
        days_since_epoch(a.0, a.1, a.2) <= days_since_epoch(b.0, b.1, b.2),
    ensures
        a.0 <= b.0 || days_since_epoch(a.0, a.1, a.2) < days_since_epoch(b.0, b.1, b.2),
        a.0 == b.0 ==> a.1 <= b.1 || days_since_epoch(a.0, a.1, a.2) < days_since_epoch(
            b.0,
            b.1,
            b.2,
        ),
        a.0 == b.0 && a.1 == b.1 ==> a.2 <= b.2 || days_since_epoch(a.0, a.1, a.2)
            < days_since_epoch(b.0, b.1, b.2),
{
    if a.0 > b.0 {
        lemma_days_before_year_monotonic(b.0, a.0);
        lemma_month_bounds(b.0, b.1, b.2);
        lemma_month_bounds(a.0, a.1, a.2);
    } else if a.0 == b.0 && a.1 > b.1 {
        lemma_days_before_month_monotonic(a.0, b.1, a.1);
    }
}

/// The day offset of a valid date within its year is below the year length.
proof fn lemma_month_bounds(y: int, m: int, d: int)
    requires
        valid_date(y, m, d),
    ensures
        0 <= days_before_month(y, m) + (d - 1) < days_in_year(y),
    decreases 13 - m,
{
    lemma_days_before_month_nonneg(y, m);
    lemma_months_remaining(y, m);
}

proof fn lemma_days_before_month_nonneg(y: int, m: int)
    requires
        m >= 1,
    ensures
        days_before_month(y, m) >= 0,
    decreases m,
{
    if m > 1 {
        lemma_days_before_month_nonneg(y, m - 1);
    }
}

proof fn lemma_months_remaining(y: int, m: int)
    requires
        1 <= m <= 12,
    ensures
        days_before_month(y, m) + days_in_month(y, m) <= days_in_year(y),
    decreases 13 - m,
{
    if m == 12 {
        lemma_year_days_from_months(y);
    } else {
        lemma_months_remaining(y, m + 1);
        lemma_days_in_month_pos(y, m + 1);
    }
}

proof fn lemma_days_in_month_pos(y: int, m: int)
    ensures
        days_in_month(y, m) >= 28,
{
}

proof fn lemma_days_before_year_monotonic(a: int, b: int)
    requires
        1970 <= a <= b,
    ensures
        days_before_year(a) + 365 * (b - a) <= days_before_year(b),
    decreases b - a,
{
    if a < b {
        lemma_days_before_year_monotonic(a, b - 1);
    }
}

proof fn lemma_days_before_month_monotonic(y: int, a: int, b: int)
    requires
        1 <= a <= b,
    ensures
        days_before_month(y, a) + 28 * (b - a) <= days_before_month(y, b),
    decreases b - a,
{
    if a < b {
        lemma_days_before_month_monotonic(y, a, b - 1);
        lemma_days_in_month_pos(y, b - 1);
    }
}

/// Formats an instant, given as milliseconds since the Unix epoch, as its
/// UTC+8 calendar date and time of day, `YYYY-MM-DD HH:MM:SS.mmm`.
pub fn format_timestamp(epoch_ms: u64) -> (r: String)
    requires
        epoch_ms + UTC_OFFSET_MS <= u64::MAX,
    ensures
        r@ == timestamp_rep(epoch_ms as int),
{
    let t = epoch_ms + UTC_OFFSET_MS;
    let days = t / 86400000;
    let ms_of_day = t % 86400000;
    let (y, m, d) = civil_from_days(days);
    proof {
        let picked = choose|ymd: (int, int, int)|
            valid_date(ymd.0, ymd.1, ymd.2) && days_since_epoch(ymd.0, ymd.1, ymd.2) == days as int;
        assert(valid_date(y as int, m as int, d as int) && days_since_epoch(
            y as int,
            m as int,
            d as int,
        ) == days as int);
        lemma_civil_unique(picked, (y as int, m as int, d as int));
    }
    let mut r = u64_to_dec_pad(y, 4);
    r.append("-");
    let mm = u64_to_dec_pad(m, 2);
    r.append(mm.as_str());
    r.append("-");
    let dd = u64_to_dec_pad(d, 2);
    r.append(dd.as_str());
    r.append(" ");
    let hh = u64_to_dec_pad(ms_of_day / 3600000, 2);
    r.append(hh.as_str());
    r.append(":");
    let mi = u64_to_dec_pad((ms_of_day / 60000) % 60, 2);
    r.append(mi.as_str());
    r.append(":");
    let ss = u64_to_dec_pad((ms_of_day / 1000) % 60, 2);
    r.append(ss.as_str());
    r.append(".");
    let ms = u64_to_dec_pad(ms_of_day % 1000, 3);
    r.append(ms.as_str());
    r
}

} // verus!
