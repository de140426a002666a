//! Conversion of a Gregorian calendar timestamp into seconds elapsed since
//! the Unix epoch (1970-01-01 00:00:00 UTC), by the civil-to-Julian-day
//! formula: exact integer arithmetic throughout.

use vstd::prelude::*;

verus! {

/// Cumulative days before each month in a non-leap year (month is 1-based).
pub open spec fn month_days_before(month: int) -> int {
    if month == 1 {
        0
    } else if month == 2 {
        31
    } else if month == 3 {
        59
    } else if month == 4 {
        90
    } else if month == 5 {
        120
    } else if month == 6 {
        151
    } else if month == 7 {
        181
    } else if month == 8 {
        212
    } else if month == 9 {
        243
    } else if month == 10 {
        273
    } else if month == 11 {
        304
    } else {
        334
    }
}

/// Number of leap days among the `n` adjusted years: one every 4 years,
/// except centuries, except every 400 years.
pub open spec fn leap_count(n: int) -> int {
    n / 4 - n / 100 + n / 400
}

/// Day number of a civil date, counted from the Unix epoch (1970-01-01 is
/// day 0), by the Julian-day-number formula with a +4800-year shift.
pub open spec fn spec_days_from_epoch(year: int, month: int, day: int) -> int {
    let year_adj = year + 4800;
    let febs = if month <= 2 {
        year_adj - 1
    } else {
        year_adj
    };
    365 * year_adj + 1 + leap_count(febs) + month_days_before(month) + day - 1 - 2472692
}

/// Seconds elapsed since the Unix epoch for a civil timestamp.
pub open spec fn spec_epoch_seconds(
    year: int,
    month: int,
    day: int,
    hour: int,
    minute: int,
    second: int,
) -> int {
    spec_days_from_epoch(year, month, day) * 86400 + hour * 3600 + minute * 60 + second
}

/// Inputs the converter accepts without overflow or underflow: dates from
/// the epoch year up to year 9999, month and day within their ranges, and
/// each time-of-day field below 100 (the sentence decoder extracts them by
/// modulo-100, so 99 is the largest value it can hand over).
pub open spec fn convertible(
    year: int,
    month: int,
    day: int,
    hour: int,
    minute: int,
    second: int,
) -> bool {
    &&& 1970 <= year <= 9999
    &&& 1 <= month <= 12
    &&& 1 <= day <= 31
    &&& 0 <= hour <= 99
    &&& 0 <= minute <= 99
    &&& 0 <= second <= 99
}

/// Gregorian leap year rule.
pub open spec fn is_leap_year(y: int) -> bool {
    (y % 4 == 0 && y % 100 != 0) || y % 400 == 0
}

/// Days in a month of the Gregorian calendar.
pub open spec fn days_in_month(y: int, m: int) -> int {
    if m == 2 {
        if is_leap_year(y) {
            29
        } else {
            28
        }
    } else if m == 4 || m == 6 || m == 9 || m == 11 {
        30
    } else {
        31
    }
}

/// A real calendar date within the converter's year range.
pub open spec fn valid_date(y: int, m: int, d: int) -> bool {
    1970 <= y <= 9999 && 1 <= m <= 12 && 1 <= d <= days_in_month(y, m)
}

/// A real time of day.
pub open spec fn valid_time(h: int, mi: int, s: int) -> bool {
    0 <= h < 24 && 0 <= mi < 60 && 0 <= s < 60
}

/// Strict chronological order on civil timestamps: lexicographic on
/// (year, month, day, hour, minute, second).
pub open spec fn chronologically_before(
    y1: int, m1: int, d1: int, h1: int, mi1: int, s1: int,
    y2: int, m2: int, d2: int, h2: int, mi2: int, s2: int,
) -> bool {
    ||| y1 < y2
    ||| (y1 == y2 && m1 < m2)
    ||| (y1 == y2 && m1 == m2 && d1 < d2)
    ||| (y1 == y2 && m1 == m2 && d1 == d2 && h1 < h2)
    ||| (y1 == y2 && m1 == m2 && d1 == d2 && h1 == h2 && mi1 < mi2)
    ||| (y1 == y2 && m1 == m2 && d1 == d2 && h1 == h2 && mi1 == mi2 && s1 < s2)
}

/// Leap-day counting never decreases as years pass.
pub proof fn lemma_leap_count_monotonic(a: int, b: int)
    requires
        0 <= a <= b,
    ensures
        leap_count(a) <= leap_count(b),
    decreases b - a,
{
    if a < b {
        lemma_leap_count_monotonic(a, b - 1);
        assert(leap_count(b - 1) <= leap_count(b)) by {
            assert(b / 4 - (b - 1) / 4 >= if b % 4 == 0 { 1int } else { 0int });
            assert(b / 100 - (b - 1) / 100 == if b % 100 == 0 { 1int } else { 0int });
            assert(b / 400 - (b - 1) / 400 == if b % 400 == 0 { 1int } else { 0int });
        };
    }
}

/// Elapsed seconds since the Unix epoch for the given civil timestamp.
pub fn epoch_seconds(year: u64, month: u64, day: u64, hour: u64, minute: u64, second: u64) -> (r:
    u64)
    requires
        convertible(year as int, month as int, day as int, hour as int, minute as int, second as int),
    ensures
        r == spec_epoch_seconds(
            year as int,
            month as int,
            day as int,
            hour as int,
            minute as int,
            second as int,
        ),
{
    let month_yday: [u64; 12] = [0, 31, 59, 90, 120, 151, 181, 212, 243, 273, 304, 334];
    let year_adj = year + 4800;
    let febs = year_adj - (if month <= 2 {
        1
    } else {
        0
    });
    let leap_days = febs / 4 - febs / 100 + febs / 400;
    proof {
        lemma_leap_count_monotonic(6769, febs as int);
        assert(leap_count(6769) == 1641);
        assert(leap_count(febs as int) <= febs);
    }
    let total = 365 * year_adj + 1 + leap_days + month_yday[month as usize - 1] + (day - 1);
    let days = total - 2472692;
    days * 86400 + hour * 3600 + minute * 60 + second
}

/// Crossing one year boundary gains exactly the leap days of that year.
pub proof fn lemma_leap_count_year(y: int)
    requires
        0 <= y,
    ensures
        leap_count(y + 4800) - leap_count(y + 4800 - 1) == if is_leap_year(y) {
            1int
        } else {
            0int
        },
{
    let a = y + 4800;
    assert(a % 4 == y % 4);
    assert(a % 100 == y % 100);
    assert(a % 400 == y % 400);
    assert(a / 4 - (a - 1) / 4 == if a % 4 == 0 { 1int } else { 0int });
    assert(a / 100 - (a - 1) / 100 == if a % 100 == 0 { 1int } else { 0int });
    assert(a / 400 - (a - 1) / 400 == if a % 400 == 0 { 1int } else { 0int });
}

/// The day after the last day of a month is the first of the next month.
pub proof fn lemma_days_next_month(y: int, m: int)
    requires
        1970 <= y <= 9999,
        1 <= m < 12,
    ensures
        spec_days_from_epoch(y, m, days_in_month(y, m)) + 1 == spec_days_from_epoch(y, m + 1, 1),
{
    if m == 2 {
        lemma_leap_count_year(y);
    }
}

/// The day after December 31 is January 1 of the next year.
pub proof fn lemma_days_next_year(y: int)
    ensures
        spec_days_from_epoch(y, 12, 31) + 1 == spec_days_from_epoch(y + 1, 1, 1),
{
}

/// No day of a year comes after its December 31.
pub proof fn lemma_days_le_year_end(y: int, m: int, d: int)
    requires
        valid_date(y, m, d),
    ensures
        spec_days_from_epoch(y, m, d) <= spec_days_from_epoch(y, 12, 31),
    decreases 12 - m,
{
    if m < 12 {
        lemma_days_next_month(y, m);
        lemma_days_le_year_end(y, m + 1, 1);
    }
}

/// No day of a year comes before its January 1.
pub proof fn lemma_days_ge_year_start(y: int, m: int, d: int)
    requires
        valid_date(y, m, d),
    ensures
        spec_days_from_epoch(y, m, d) >= spec_days_from_epoch(y, 1, 1),
    decreases m,
{
    if m > 1 {
        lemma_days_next_month(y, m - 1);
        lemma_days_ge_year_start(y, m - 1, 1);
        assert(spec_days_from_epoch(y, m - 1, 1) <= spec_days_from_epoch(
            y,
            m - 1,
            days_in_month(y, m - 1),
        ));
    }
}

/// January 1 moves strictly later as years pass.
pub proof fn lemma_days_year_monotonic(y1: int, y2: int)
    requires
        1970 <= y1 < y2 <= 9999,
    ensures
        spec_days_from_epoch(y1, 1, 1) < spec_days_from_epoch(y2, 1, 1),
    decreases y2 - y1,
{
    lemma_days_le_year_end(y1, 1, 1);
    lemma_days_next_year(y1);
    if y1 + 1 < y2 {
        lemma_days_year_monotonic(y1 + 1, y2);
    }
}

/// First months of a year come no later than later months' first days.
pub proof fn lemma_days_month_monotonic(y: int, ma: int, mb: int)
    requires
        1970 <= y <= 9999,
        1 <= ma <= mb <= 12,
    ensures
        spec_days_from_epoch(y, ma, 1) <= spec_days_from_epoch(y, mb, 1),
    decreases mb - ma,
{
    if ma < mb {
        lemma_days_next_month(y, ma);
        lemma_days_month_monotonic(y, ma + 1, mb);
    }
}

/// The day count is strictly monotone in chronological order of valid
/// dates.
pub proof fn lemma_days_monotonic(y1: int, m1: int, d1: int, y2: int, m2: int, d2: int)
    requires
        valid_date(y1, m1, d1),
        valid_date(y2, m2, d2),
        y1 < y2 || (y1 == y2 && m1 < m2) || (y1 == y2 && m1 == m2 && d1 < d2),
    ensures
        spec_days_from_epoch(y1, m1, d1) < spec_days_from_epoch(y2, m2, d2),
{
    if y1 < y2 {
        lemma_days_le_year_end(y1, m1, d1);
        lemma_days_next_year(y1);
        if y1 + 1 < y2 {
            lemma_days_year_monotonic(y1 + 1, y2);
        }
        lemma_days_ge_year_start(y2, m2, d2);
    } else if m1 < m2 {
        lemma_days_next_month(y1, m1);
        lemma_days_month_monotonic(y1, m1 + 1, m2);
        lemma_days_ge_year_start(y2, m2, d2);
        assert(spec_days_from_epoch(y2, m2, 1) <= spec_days_from_epoch(y2, m2, d2));
    }
}

/// The epoch count is strictly monotone in chronological order: a valid
/// civil timestamp that comes earlier than another maps to strictly fewer
/// elapsed seconds.
pub proof fn lemma_epoch_monotonic(
    y1: int, m1: int, d1: int, h1: int, mi1: int, s1: int,
    y2: int, m2: int, d2: int, h2: int, mi2: int, s2: int,
)
    requires
        valid_date(y1, m1, d1),
        valid_time(h1, mi1, s1),
        valid_date(y2, m2, d2),
        valid_time(h2, mi2, s2),
        chronologically_before(y1, m1, d1, h1, mi1, s1, y2, m2, d2, h2, mi2, s2),
    ensures
        spec_epoch_seconds(y1, m1, d1, h1, mi1, s1) < spec_epoch_seconds(y2, m2, d2, h2, mi2, s2),
{
    let days1 = spec_days_from_epoch(y1, m1, d1);
    let days2 = spec_days_from_epoch(y2, m2, d2);
    if y1 == y2 && m1 == m2 && d1 == d2 {
        assert(h1 * 3600 + mi1 * 60 + s1 < h2 * 3600 + mi2 * 60 + s2);
    } else {
        lemma_days_monotonic(y1, m1, d1, y2, m2, d2);
        assert(h1 * 3600 + mi1 * 60 + s1 <= 86399);
        assert(h2 * 3600 + mi2 * 60 + s2 >= 0);
        assert(days1 * 86400 + 86400 <= days2 * 86400) by {
            assert((days2 - days1) * 86400 >= 1 * 86400) by (nonlinear_arith)
                requires
                    days2 - days1 >= 1,
            ;
        };
    }
}

} // verus!
