//! Points in time as calendar dates.
use vstd::prelude::*;

use crate::number::{padded, to_padded};

verus! {

/// Seconds of a day.
pub const DAY_SECS: u64 = 86400;

/// Whether a year of the Gregorian calendar has a 29th of February.
pub open spec fn leap(y: int) -> bool {
    y % 4 == 0 && (y % 100 != 0 || y % 400 == 0)
}

/// The number of days of a month.
pub open spec fn month_len(y: int, m: int) -> int {
    if m == 2 {
        if leap(y) {
            29
        } else {
            28
        }
    } else if m == 4 || m == 6 || m == 9 || m == 11 {
        30
    } else {
        31
    }
}

/// The number of days of a year before a month.
pub open spec fn days_before_month(y: int, m: int) -> int
    decreases m,
{
    if m <= 1 {
        0
    } else {
        days_before_month(y, m - 1) + month_len(y, m - 1)
    }
}

/// The number of days from the first of January of the year 1 to that of year `y`.
pub open spec fn days_before_year(y: int) -> int {
    365 * (y - 1) + (y - 1) / 4 - (y - 1) / 100 + (y - 1) / 400
}

/// A day of the Gregorian calendar.
pub struct Date {
    pub year: int,
    pub month: int,
    pub day: int,
}

/// Whether there is such a day.
pub open spec fn is_date(t: Date) -> bool {
    1 <= t.month <= 12 && 1 <= t.day <= month_len(t.year, t.month)
}

/// The number of days from the first of January 1970.
pub open spec fn day_number(t: Date) -> int {
    days_before_year(t.year) - days_before_year(1970) + days_before_month(t.year, t.month) + t.day
        - 1
}

/// The date of a day counted from the first of January 1970.
pub open spec fn date_of(days: int) -> Date {
    choose|t: Date| is_date(t) && #[trigger] day_number(t) == days
}

/// A point in time as text: date, hours and minutes.
pub open spec fn time_text(ts: int) -> Seq<char> {
    let t = date_of(ts / 86400);
    padded(t.year as nat, 4) + "-"@ + padded(t.month as nat, 2) + "-"@ + padded(t.day as nat, 2)
        + " "@ + padded((ts % 86400 / 3600) as nat, 2) + ":"@ + padded((ts % 3600 / 60) as nat, 2)
}

proof fn months(y: int)
    ensures
        days_before_month(y, 1) == 0,
        days_before_month(y, 2) == 31,
        days_before_month(y, 3) == 31 + month_len(y, 2),
        days_before_month(y, 4) == 62 + month_len(y, 2),
        days_before_month(y, 5) == 92 + month_len(y, 2),
        days_before_month(y, 6) == 123 + month_len(y, 2),
        days_before_month(y, 7) == 153 + month_len(y, 2),
        days_before_month(y, 8) == 184 + month_len(y, 2),
        days_before_month(y, 9) == 215 + month_len(y, 2),
        days_before_month(y, 10) == 245 + month_len(y, 2),
        days_before_month(y, 11) == 276 + month_len(y, 2),
        days_before_month(y, 12) == 306 + month_len(y, 2),
{
    reveal_with_fuel(days_before_month, 13);
}

proof fn year_len(y: int)
    ensures
        days_before_year(y + 1) == days_before_year(y) + 337 + month_len(y, 2),
{
    step_4(y);
    step_100(y);
    step_400(y);
}

proof fn step_4(y: int)
    ensures
        y / 4 == (y - 1) / 4 + (if y % 4 == 0 {
            1int
        } else {
            0int
        }),
{
}

proof fn step_100(y: int)
    ensures
        y / 100 == (y - 1) / 100 + (if y % 100 == 0 {
            1int
        } else {
            0int
        }),
        y % 100 == 0 ==> y % 4 == 0,
{
}

proof fn step_400(y: int)
    ensures
        y / 400 == (y - 1) / 400 + (if y % 400 == 0 {
            1int
        } else {
            0int
        }),
        y % 400 == 0 ==> y % 100 == 0,
{
}

proof fn years_grow(a: int, b: int)
    requires
        a < b,
    ensures
        days_before_year(a) + 365 <= days_before_year(b),
    decreases b - a,
{
    year_len(b - 1);
    if a < b - 1 {
        years_grow(a, b - 1);
    }
}

/// No two days have the same number.
pub proof fn day_number_injective(s: Date, t: Date)
    requires
        is_date(s),
        is_date(t),
        day_number(s) == day_number(t),
    ensures
        s == t,
{
    months(s.year);
    months(t.year);
    year_len(s.year);
    year_len(t.year);
    if s.year < t.year {
        if s.year + 1 < t.year {
            years_grow(s.year + 1, t.year);
        }
    } else if t.year < s.year {
        if t.year + 1 < s.year {
            years_grow(t.year + 1, s.year);
        }
    }
}

/// In an era of 400 years, which starts on a first of March, the year that
/// the day `doe` falls in.
proof fn year_of_era(doe: u32)
    by (bit_vector)
    requires
        doe <= 146096,
    ensures
        ({
            let yoe = (doe - doe / 1460 + doe / 36524 - doe / 146096) as u32 / 365;
            &&& yoe <= 399
            &&& 365 * yoe + yoe / 4 - yoe / 100 <= doe
            &&& doe < 365 * (yoe + 1) + (yoe as u32 + 1) as u32 / 4 - (yoe as u32 + 1) as u32 / 100
                + (yoe as u32 + 1) as u32 / 400
        }),
{
}

/// Days from the first of March of the year 0 to that of year `y`.
spec fn march_start(y: int) -> int {
    365 * y + y / 4 - y / 100 + y / 400
}

/// The month and the day of the `doy`-th day from a first of March on.
proof fn march_month(doy: u32)
    by (bit_vector)
    requires
        doy <= 365,
    ensures
        ({
            let mp = (5 * doy + 2) as u32 / 153;
            let start = (153 * mp + 2) as u32 / 5;
            &&& mp <= 11
            &&& start <= doy
            &&& (mp == 0 ==> start == 0 && doy < 31)
            &&& (mp == 1 ==> start == 31 && doy < 61)
            &&& (mp == 2 ==> start == 61 && doy < 92)
            &&& (mp == 3 ==> start == 92 && doy < 122)
            &&& (mp == 4 ==> start == 122 && doy < 153)
            &&& (mp == 5 ==> start == 153 && doy < 184)
            &&& (mp == 6 ==> start == 184 && doy < 214)
            &&& (mp == 7 ==> start == 214 && doy < 245)
            &&& (mp == 8 ==> start == 245 && doy < 275)
            &&& (mp == 9 ==> start == 275 && doy < 306)
            &&& (mp == 10 ==> start == 306 && doy < 337)
            &&& (mp == 11 ==> start == 337 && doy <= 365)
        }),
{
}

/// The date of the `doy`-th day from the first of March of year `y` on.
spec fn march_date(y: int, doy: int) -> Date {
    let mp = (5 * doy + 2) / 153;
    let d = doy - (153 * mp + 2) / 5 + 1;
    let m = if mp < 10 {
        mp + 3
    } else {
        mp - 9
    };
    Date {
        year: if m <= 2 {
            y + 1
        } else {
            y
        },
        month: m,
        day: d,
    }
}

proof fn march_year(y: int, doy: int)
    requires
        0 <= doy < march_start(y + 1) - march_start(y),
    ensures
        is_date(march_date(y, doy)),
        day_number(march_date(y, doy)) == march_start(y) + doy - 719468,
{
    year_len(y + 1);
    year_len(y);
    assert(days_before_year(y + 1) == march_start(y));
    assert(days_before_year(y + 2) == march_start(y + 1));
    assert(days_before_year(1970) == 719162);
    assert(doy < 337 + month_len(y + 1, 2));
    march_month(doy as u32);
    months(y);
    months(y + 1);
    let mp = (5 * doy + 2) / 153;
    assert(0 <= mp <= 11);
}

/// Where a day that is counted from the first of March of the year 0 falls.
proof fn era_day(z: int)
    requires
        0 <= z,
    ensures
        ({
            let era = z / 146097;
            let doe = z % 146097;
            let yoe = (doe - doe / 1460 + doe / 36524 - doe / 146096) / 365;
            let y = yoe + era * 400;
            let doy = doe - (365 * yoe + yoe / 4 - yoe / 100);
            &&& 0 <= yoe <= 399
            &&& 0 <= yoe / 4 - yoe / 100
            &&& 365 * yoe + yoe / 4 - yoe / 100 <= doe
            &&& march_start(y) + doy == z
            &&& 0 <= doy < march_start(y + 1) - march_start(y)
        }),
{
    let era = z / 146097;
    let doe = z % 146097;
    year_of_era(doe as u32);
    let yoe = (doe - doe / 1460 + doe / 36524 - doe / 146096) / 365;
    era_years(yoe, era);
    era_years(yoe + 1, era);
}

proof fn era_years(k: int, era: int)
    requires
        0 <= k <= 400,
        0 <= era,
    ensures
        march_start(k + era * 400) == 365 * k + k / 4 - k / 100 + k / 400 + 146097 * era,
{
    let y = k + era * 400;
    assert(y / 4 == k / 4 + 100 * era);
    assert(y / 100 == k / 100 + 4 * era);
    assert(y / 400 == k / 400 + era);
}

/// The year, month and day of a day counted from the first of January 1970.
pub fn civil_date(days: u64) -> (r: (u64, u64, u64))
    requires
        days <= u64::MAX / 86400,
    ensures
        date_of(days as int) == (Date { year: r.0 as int, month: r.1 as int, day: r.2 as int }),
        is_date(date_of(days as int)),
        day_number(date_of(days as int)) == days,
{
    let z: u64 = days + 719468;
    let era: u64 = z / 146097;
    let doe: u64 = z % 146097;
    proof {
        era_day(z as int);
    }
    let yoe: u64 = (doe - doe / 1460 + doe / 36524 - doe / 146096) / 365;
    let y: u64 = yoe + era * 400;
    let doy: u64 = doe - (365 * yoe + yoe / 4 - yoe / 100);
    let mp: u64 = (5 * doy + 2) / 153;
    let d: u64 = doy - (153 * mp + 2) / 5 + 1;
    let m: u64 = if mp < 10 {
        mp + 3
    } else {
        mp - 9
    };
    let year: u64 = if m <= 2 {
        y + 1
    } else {
        y
    };
    proof {
        march_year(y as int, doy as int);
        let t = march_date(y as int, doy as int);
        assert(day_number(t) == days);
        day_number_injective(t, date_of(days as int));
    }
    (year, m, d)
}

/// A point in time as text: date, hours and minutes.
pub fn format_timestamp(ts: u64) -> (r: String)
    ensures
        r@ == time_text(ts as int),
{
    let (y, m, d) = civil_date(ts / DAY_SECS);
    let mut s = to_padded(y, 4);
    s.append("-");
    s.append(to_padded(m, 2).as_str());
    s.append("-");
    s.append(to_padded(d, 2).as_str());
    s.append(" ");
    s.append(to_padded((ts % DAY_SECS) / 3600, 2).as_str());
    s.append(":");
    s.append(to_padded((ts % 3600) / 60, 2).as_str());
    s
}

/// A point in time as text, with its zone.
pub fn format_ts(ts: u64) -> (r: String)
    ensures
        r@ == time_text(ts as int) + " UTC"@,
{
    let mut s = format_timestamp(ts);
    s.append(" UTC");
    s
}

/// Every day has a date.
pub proof fn every_day_has_a_date(days: u64)
    requires
        days <= u64::MAX / 86400,
    ensures
        is_date(date_of(days as int)),
        day_number(date_of(days as int)) == days,
{
    let z = days + 719468;
    let era = z / 146097;
    let doe = z % 146097;
    let yoe = (doe - doe / 1460 + doe / 36524 - doe / 146096) / 365;
    era_day(z);
    let t = march_date(yoe + era * 400, doe - (365 * yoe + yoe / 4 - yoe / 100));
    march_year(yoe + era * 400, doe - (365 * yoe + yoe / 4 - yoe / 100));
    assert(day_number(t) == days);
}

/// The day that days are counted from is the first of January 1970.
pub proof fn days_are_counted_from_1970()
    ensures
        date_of(0) == (Date { year: 1970, month: 1, day: 1 }),
{
    let t = Date { year: 1970, month: 1, day: 1 };
    every_day_has_a_date(0);
    assert(is_date(t) && day_number(t) == 0);
    day_number_injective(t, date_of(0));
}

/// The day after a day is the next of its month, or the first of the next month, or the
/// first of the next year. February has a 29th day in each year that four divides, unless
/// a hundred does and four hundred does not.
pub proof fn the_day_after(days: u64)
    requires
        days < u64::MAX / 86400,
    ensures
        ({
            let t = date_of(days as int);
            let long = t.year % 4 == 0 && (t.year % 100 != 0 || t.year % 400 == 0);
            let last: int = if t.month == 2 {
                if long {
                    29
                } else {
                    28
                }
            } else if t.month == 4 || t.month == 6 || t.month == 9 || t.month == 11 {
                30
            } else {
                31
            };
            date_of(days + 1) == (if t.day < last {
                Date { day: t.day + 1, ..t }
            } else if t.month < 12 {
                Date { month: t.month + 1, day: 1, ..t }
            } else {
                Date { year: t.year + 1, month: 1, day: 1 }
            })
        }),
{
    let t = date_of(days as int);
    every_day_has_a_date(days);
    every_day_has_a_date((days + 1) as u64);
    let next = if t.day < month_len(t.year, t.month) {
        Date { day: t.day + 1, ..t }
    } else if t.month < 12 {
        Date { month: t.month + 1, day: 1, ..t }
    } else {
        Date { year: t.year + 1, month: 1, day: 1 }
    };
    if t.day >= month_len(t.year, t.month) && t.month == 12 {
        reveal_with_fuel(days_before_month, 13);
        let y = t.year;
        assert(y / 4 - (y - 1) / 4 == (if y % 4 == 0 {
            1int
        } else {
            0
        }));
        assert(y / 100 - (y - 1) / 100 == (if y % 100 == 0 {
            1int
        } else {
            0
        }));
        assert(y / 400 - (y - 1) / 400 == (if y % 400 == 0 {
            1int
        } else {
            0
        }));
    }
    assert(is_date(next));
    assert(day_number(next) == days + 1);
    day_number_injective(next, date_of(days + 1));
}

} // verus!
