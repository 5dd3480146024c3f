//! ZIP file timestamp handling.
//!
//! Datetimes of ZIP files come in two flavors: UTC and local time. The
//! local time zone is not part of the format, so the type of a timestamp
//! says which of the two it is. A writer accepts UTC timestamps only.

use crate::utils::{le_u16_at, le_u32_at, le_u64_at, read_u16, read_u32, read_u64};
use core::marker::PhantomData;
use crate::text::{decimal, push_decimal, string_of};
use vstd::prelude::*;

verus! {

/// Represents the time zone of a timestamp.
#[derive(Debug, Clone, Copy, PartialEq, Eq, Structural)]
pub enum TimeZone {
    /// UTC (Coordinated Universal Time)
    Utc,
    /// Local time (timezone unknown)
    Local,
}

/// Marker type for UTC timezone.
#[derive(Debug, Clone, Copy, PartialEq, Eq, PartialOrd, Ord, Hash)]
pub struct Utc;

/// Marker type for Local timezone.
#[derive(Debug, Clone, Copy, PartialEq, Eq, PartialOrd, Ord, Hash)]
pub struct Local;

/// Trait for timezone markers.
pub trait TimeZoneMarker {
    /// The time zone that the marker stands for.
    spec fn zone() -> TimeZone;

    /// The time zone that the marker stands for.
    fn timezone() -> (z: TimeZone)
        ensures
            z == Self::zone(),
    ;
}

impl TimeZoneMarker for Utc {
    open spec fn zone() -> TimeZone {
        TimeZone::Utc
    }

    fn timezone() -> (z: TimeZone) {
        TimeZone::Utc
    }
}

impl TimeZoneMarker for Local {
    open spec fn zone() -> TimeZone {
        TimeZone::Local
    }

    fn timezone() -> (z: TimeZone) {
        TimeZone::Local
    }
}

/// A date and a time of day in the proleptic Gregorian calendar.
pub struct Civil {
    pub year: int,
    pub month: int,
    pub day: int,
    pub hour: int,
    pub minute: int,
    pub second: int,
    pub nanosecond: int,
}

/// Whether `year` is a leap year.
pub open spec fn is_leap_year(year: int) -> bool {
    year % 4 == 0 && (year % 100 != 0 || year % 400 == 0)
}

/// The number of days of a month.
pub open spec fn days_in_month(year: int, month: int) -> int {
    if month == 2 {
        if is_leap_year(year) {
            29
        } else {
            28
        }
    } else if month == 4 || month == 6 || month == 9 || month == 11 {
        30
    } else {
        31
    }
}

/// The number of days of a year that lie before a month.
pub open spec fn days_before_month(year: int, month: int) -> int
    decreases month,
{
    if month <= 1 {
        0
    } else {
        days_before_month(year, month - 1) + days_in_month(year, month - 1)
    }
}

/// The number of days from the first day of year 1 to the first day of
/// `year`.
pub open spec fn days_before_year(year: int) -> int {
    365 * (year - 1) + (year - 1) / 4 - (year - 1) / 100 + (year - 1) / 400
}

/// The number of days from 1970-01-01 to the given date; negative for
/// earlier dates.
pub open spec fn days_from_epoch(year: int, month: int, day: int) -> int {
    days_before_year(year) + days_before_month(year, month) + (day - 1) - 719162
}

impl Civil {
    /// Whether the date exists and the time of day is one: a year from 1
    /// to 65535, a month from 1 to 12, a day of that month, an hour below 24,
    /// minute and second below 60, and a nanosecond below 1,000,000,000.
    pub open spec fn valid(self) -> bool {
        &&& 1 <= self.year <= 65535
        &&& 1 <= self.month <= 12
        &&& 1 <= self.day <= days_in_month(self.year, self.month)
        &&& 0 <= self.hour <= 23
        &&& 0 <= self.minute <= 59
        &&& 0 <= self.second <= 59
        &&& 0 <= self.nanosecond <= 999_999_999
    }

    /// The number of seconds from 1970-01-01T00:00:00 to this moment;
    /// negative for earlier ones.
    pub open spec fn unix_seconds(self) -> int {
        days_from_epoch(self.year, self.month, self.day) * 86400 + self.hour * 3600 + self.minute
            * 60 + self.second
    }
}

/// The first second that a timestamp can hold: 0001-01-01T00:00:00.
pub const MIN_UNIX_SECONDS: i64 = -62135596800;

/// The last second that a timestamp can hold: 65535-12-31T23:59:59.
pub const MAX_UNIX_SECONDS: i64 = 2005949145599;

/// The moment that lies `seconds` after 1970-01-01T00:00:00, to the second.
/// Seconds before the first or after the last moment that a timestamp can
/// hold stand for that moment.
pub open spec fn civil_of_unix(seconds: int) -> Civil {
    choose|c: Civil|
        c.valid() && c.nanosecond == 0 && c.unix_seconds() == clamped_unix_seconds(seconds)
}

/// The cumulative days of the months, month by month.
pub proof fn lemma_days_before_month(year: int)
    ensures
        days_before_month(year, 1) == 0,
        days_before_month(year, 2) == 31,
        days_before_month(year, 3) == 59 + if is_leap_year(year) {
            1int
        } else {
            0int
        },
        days_before_month(year, 4) == days_before_month(year, 3) + 31,
        days_before_month(year, 5) == days_before_month(year, 3) + 61,
        days_before_month(year, 6) == days_before_month(year, 3) + 92,
        days_before_month(year, 7) == days_before_month(year, 3) + 122,
        days_before_month(year, 8) == days_before_month(year, 3) + 153,
        days_before_month(year, 9) == days_before_month(year, 3) + 184,
        days_before_month(year, 10) == days_before_month(year, 3) + 214,
        days_before_month(year, 11) == days_before_month(year, 3) + 245,
        days_before_month(year, 12) == days_before_month(year, 3) + 275,
        days_before_month(year, 13) == days_before_month(year, 3) + 306,
{
    reveal_with_fuel(days_before_month, 14);
}

/// The multiples of 4 up to `n` are one more than those up to `n - 1`
/// where `n` is one.
proof fn lemma_step_4(n: int)
    requires
        n >= 1,
    ensures
        n / 4 - (n - 1) / 4 == if n % 4 == 0 {
            1int
        } else {
            0int
        },
{
}

/// The same for the multiples of 100.
proof fn lemma_step_100(n: int)
    requires
        n >= 1,
    ensures
        n / 100 - (n - 1) / 100 == if n % 100 == 0 {
            1int
        } else {
            0int
        },
{
}

/// The same for the multiples of 400.
proof fn lemma_step_400(n: int)
    requires
        n >= 1,
    ensures
        n / 400 - (n - 1) / 400 == if n % 400 == 0 {
            1int
        } else {
            0int
        },
{
}

/// A year that 400 divides is divided by 100, and one that 100 divides by 4.
proof fn lemma_leap_multiples(n: int)
    requires
        n >= 1,
    ensures
        n % 400 == 0 ==> n % 100 == 0,
        n % 100 == 0 ==> n % 4 == 0,
{
}

/// A year has 365 days, and one more where it is a leap year.
pub proof fn lemma_days_before_next_year(year: int)
    requires
        year >= 1,
    ensures
        days_before_year(year + 1) == days_before_year(year) + 365 + if is_leap_year(year) {
            1int
        } else {
            0int
        },
{
    lemma_step_4(year);
    lemma_step_100(year);
    lemma_step_400(year);
    lemma_leap_multiples(year);
}

/// Later years start later.
pub proof fn lemma_days_before_year_monotonic(a: int, b: int)
    requires
        1 <= a <= b,
    ensures
        days_before_year(b) - days_before_year(a) >= 365 * (b - a),
    decreases b - a,
{
    if a < b {
        lemma_days_before_next_year(b - 1);
        lemma_days_before_year_monotonic(a, b - 1);
    }
}

/// A date lies within its year.
pub proof fn lemma_day_within_year(year: int, month: int, day: int)
    requires
        year >= 1,
        1 <= month <= 12,
        1 <= day <= days_in_month(year, month),
    ensures
        0 <= days_before_month(year, month) + (day - 1) < 365 + if is_leap_year(year) {
            1int
        } else {
            0int
        },
{
    lemma_days_before_month(year);
}

/// Later dates of a year lie later in it.
proof fn lemma_month_order(year: int, m1: int, d1: int, m2: int, d2: int)
    requires
        1 <= m1 < m2 <= 12,
        1 <= d1 <= days_in_month(year, m1),
        1 <= d2,
    ensures
        days_before_month(year, m1) + d1 < days_before_month(year, m2) + d2,
{
    lemma_days_before_month(year);
}

/// Two dates that lie equally many days from the epoch are one date.
proof fn lemma_days_from_epoch_injective(
    y1: int,
    m1: int,
    d1: int,
    y2: int,
    m2: int,
    d2: int,
)
    requires
        1 <= y1,
        1 <= y2,
        1 <= m1 <= 12,
        1 <= m2 <= 12,
        1 <= d1 <= days_in_month(y1, m1),
        1 <= d2 <= days_in_month(y2, m2),
        days_from_epoch(y1, m1, d1) == days_from_epoch(y2, m2, d2),
    ensures
        y1 == y2 && m1 == m2 && d1 == d2,
{
    lemma_day_within_year(y1, m1, d1);
    lemma_day_within_year(y2, m2, d2);
    if y1 < y2 {
        lemma_days_before_next_year(y1);
        lemma_days_before_year_monotonic(y1 + 1, y2);
        assert(false);
    }
    if y2 < y1 {
        lemma_days_before_next_year(y2);
        lemma_days_before_year_monotonic(y2 + 1, y1);
        assert(false);
    }
    if m1 < m2 {
        lemma_month_order(y1, m1, d1, m2, d2);
        assert(false);
    }
    if m2 < m1 {
        lemma_month_order(y1, m2, d2, m1, d1);
        assert(false);
    }
}

/// A count of seconds splits in one way into days and a time of day.
proof fn lemma_time_of_day_unique(
    da: int,
    ha: int,
    ma: int,
    sa: int,
    db: int,
    hb: int,
    mb: int,
    sb: int,
)
    requires
        0 <= ha <= 23 && 0 <= ma <= 59 && 0 <= sa <= 59,
        0 <= hb <= 23 && 0 <= mb <= 59 && 0 <= sb <= 59,
        da * 86400 + ha * 3600 + ma * 60 + sa == db * 86400 + hb * 3600 + mb * 60 + sb,
    ensures
        da == db && ha == hb && ma == mb && sa == sb,
{
    let ta = ha * 3600 + ma * 60 + sa;
    let tb = hb * 3600 + mb * 60 + sb;
    assert(0 <= ta < 86400 && 0 <= tb < 86400);
    assert(da == db) by {
        if da < db {
            assert(da * 86400 + 86400 <= db * 86400);
        }
        if db < da {
            assert(db * 86400 + 86400 <= da * 86400);
        }
    }
    assert(ta == tb);
    assert(ha == hb) by {
        if ha < hb {
            assert(ha * 3600 + 3600 <= hb * 3600);
        }
        if hb < ha {
            assert(hb * 3600 + 3600 <= ha * 3600);
        }
    }
    assert(ma == mb) by {
        if ma < mb {
            assert(ma * 60 + 60 <= mb * 60);
        }
        if mb < ma {
            assert(mb * 60 + 60 <= ma * 60);
        }
    }
}

/// Two valid moments that lie equally many seconds from the epoch and
/// have the same nanosecond are one moment.
pub proof fn lemma_unix_seconds_injective(a: Civil, b: Civil)
    requires
        a.valid(),
        b.valid(),
        a.unix_seconds() == b.unix_seconds(),
        a.nanosecond == b.nanosecond,
    ensures
        a == b,
{
    lemma_time_of_day_unique(
        days_from_epoch(a.year, a.month, a.day),
        a.hour,
        a.minute,
        a.second,
        days_from_epoch(b.year, b.month, b.day),
        b.hour,
        b.minute,
        b.second,
    );
    lemma_days_from_epoch_injective(a.year, a.month, a.day, b.year, b.month, b.day);
}

/// A date that lies no later than 65535-12-31 has a year of at most 65535.
proof fn lemma_year_bound(year: int, month: int, day: int)
    requires
        1 <= year,
        1 <= month <= 12,
        1 <= day <= days_in_month(year, month),
        days_from_epoch(year, month, day) <= 23217003,
    ensures
        year <= 65535,
{
    if year >= 65536 {
        lemma_days_before_year_monotonic(65536, year);
        lemma_day_within_year(year, month, day);
        assert(days_before_year(65536) == 23936166);
    }
}

/// Returns true if the given year is a leap year.
pub fn is_leap(year: u16) -> (b: bool)
    ensures
        b == is_leap_year(year as int),
{
    year % 4 == 0 && (year % 100 != 0 || year % 400 == 0)
}

/// Returns the last day of the given month in a year that is no leap year.
pub fn last_day_of_month_common_year(m: usize) -> (d: u8)
    requires
        1 <= m <= 12,
    ensures
        d == days_in_month(1, m as int),
{
    if m == 2 {
        28
    } else if m == 4 || m == 6 || m == 9 || m == 11 {
        30
    } else {
        31
    }
}

/// Returns the last valid day of the given month in the given year.
pub fn last_day_of_month(year: u16, month: u8) -> (d: u8)
    requires
        1 <= month <= 12,
    ensures
        d == days_in_month(year as int, month as int),
{
    if month != 2 || !is_leap(year) {
        last_day_of_month_common_year(month as usize)
    } else {
        29
    }
}

/// The days of a year that starts with March, before its month `mp`
/// (0 for March, 11 for February).
pub open spec fn days_before_march_month(mp: int) -> int {
    (153 * mp + 2) / 5
}

/// The days before each month of a year that starts with March.
proof fn lemma_days_before_march_month()
    ensures
        days_before_march_month(0) == 0,
        days_before_march_month(1) == 31,
        days_before_march_month(2) == 61,
        days_before_march_month(3) == 92,
        days_before_march_month(4) == 122,
        days_before_march_month(5) == 153,
        days_before_march_month(6) == 184,
        days_before_march_month(7) == 214,
        days_before_march_month(8) == 245,
        days_before_march_month(9) == 275,
        days_before_march_month(10) == 306,
        days_before_march_month(11) == 337,
        days_before_march_month(12) == 367,
{
}

/// The days from the first of March of year 0 to the first of March of
/// `y`, counted by eras of 400 years, are the days from the first of
/// January of year 1 to the first of January of the year after `y`.
proof fn lemma_march_years(y: int)
    requires
        0 <= y,
    ensures
        (y / 400) * 146097 + (y % 400) * 365 + (y % 400) / 4 - (y % 400) / 100 == days_before_year(
            y + 1,
        ),
{
    let era = y / 400;
    let yoe = y % 400;
    assert(y == era * 400 + yoe);
    assert(y / 4 == era * 100 + yoe / 4);
    assert(y / 100 == era * 4 + yoe / 100);
}

/// The count of days by eras and March years is the count of days from
/// the epoch.
proof fn lemma_days_from_civil(year: int, month: int, day: int)
    requires
        1 <= year,
        1 <= month <= 12,
    ensures
        ({
            let y = if month <= 2 {
                year - 1
            } else {
                year
            };
            let mp = if month <= 2 {
                month + 9
            } else {
                month - 3
            };
            (y / 400) * 146097 + (y % 400) * 365 + (y % 400) / 4 - (y % 400) / 100
                + days_before_march_month(mp) + day - 1 - 719468
        }) == days_from_epoch(year, month, day),
{
    lemma_days_before_month(year);
    lemma_days_before_march_month();
    if month <= 2 {
        lemma_march_years(year - 1);
    } else {
        lemma_march_years(year);
        lemma_days_before_next_year(year);
    }
}

/// The count of days from the epoch to a date, by the years of its era of
/// 400 years and the days of a year that starts with March.
fn days_from_civil_parts(year: u16, month: u8, day: u8) -> (days: i32)
    requires
        1 <= year,
        1 <= month <= 12,
        1 <= day <= 31,
    ensures
        days == days_from_epoch(year as int, month as int, day as int),
{
    let (y, m): (i32, i32) = if month <= 2 {
        (year as i32 - 1, month as i32 + 9)
    } else {
        (year as i32, month as i32 - 3)
    };
    // The era: a cycle of 400 years.
    let era: i32 = y / 400;
    let yoe: i32 = y - era * 400;
    // The day of the year that starts with March.
    let doy: i32 = (153 * m + 2) / 5 + day as i32 - 1;
    let doe: i32 = yoe * 365 + yoe / 4 - yoe / 100 + doy;
    proof {
        lemma_days_from_civil(year as int, month as int, day as int);
        assert(yoe == y % 400);
    }
    era * 146097 + doe - 719468
}

/// The year of an era of 400 March years in which its day `doe` lies.
pub open spec fn year_of_era(doe: int) -> int {
    (doe - doe / 1460 + doe / 36524 - doe / 146096) / 365
}

/// The days of an era that lie before its year `yoe`.
pub open spec fn days_before_year_of_era(yoe: int) -> int {
    365 * yoe + yoe / 4 - yoe / 100
}

/// The day `doe` of an era lies in the year that `year_of_era` gives.
proof fn lemma_year_of_era(doe: int)
    requires
        0 <= doe <= 146096,
    ensures
        0 <= year_of_era(doe) <= 399,
        days_before_year_of_era(year_of_era(doe)) <= doe,
        doe < days_before_year_of_era(year_of_era(doe) + 1) || (year_of_era(doe) == 399 && doe
            == 146096),
{
    let c = doe / 36524;
    let yoe = year_of_era(doe);
    if c == 0 {
        lemma_year_of_century(doe, 0);
    } else if c == 1 {
        lemma_year_of_century(doe, 1);
    } else if c == 2 {
        lemma_year_of_century(doe, 2);
    } else if c == 3 {
        lemma_year_of_century(doe, 3);
    } else {
        assert(doe == 146096);
    }
}

/// The same, within the century `c` of the era.
proof fn lemma_year_of_century(doe: int, c: int)
    requires
        0 <= c <= 3,
        c * 36524 <= doe < (c + 1) * 36524,
    ensures
        0 <= year_of_era(doe) <= 399,
        days_before_year_of_era(year_of_era(doe)) <= doe,
        doe < days_before_year_of_era(year_of_era(doe) + 1),
{
    let r = doe - c * 36524;
    let q = r / 1461;
    let t = r - q * 1461;
    assert(0 <= q <= 24);
    assert(doe / 36524 == c);
    assert(doe / 146096 == 0);
    let yoe = year_of_era(doe);
    let leaps = doe / 1460;
    assert(yoe == (doe - leaps + c) / 365);
    // Within its cycle of four years the day lies in the year `k`.
    let k = if t < 365 {
        0int
    } else if t < 730 {
        1int
    } else if t < 1095 {
        2int
    } else {
        3int
    };
    let y = c * 100 + q * 4 + k;
    assert(y / 4 == c * 25 + q);
    assert(y / 100 == c);
    assert(days_before_year_of_era(y) == c * 36524 + q * 1461 + k * 365);
    assert((y + 1) / 4 == c * 25 + q + if k == 3 {
        1int
    } else {
        0int
    });
    assert(doe == c * 36524 + q * 1461 + t);
    assert(leaps == (c * 36524 + q * 1461 + t) / 1460);
    let e = if 24 * c + q + t >= 1460 {
        1int
    } else {
        0int
    };
    assert(doe == 1460 * (25 * c + q) + (24 * c + q + t));
    assert(leaps == 25 * c + q + e);
    assert(doe - leaps + c == 365 * (100 * c + 4 * q) + (t - e));
    assert(0 <= t <= 1460);
    assert(e == 1 ==> t >= 1364);
    assert(365 * k <= t - e < 365 * (k + 1));
    assert(yoe == y);
}

/// The month of a March year in which its day `doy` lies.
pub open spec fn march_month(doy: int) -> int {
    (5 * doy + 2) / 153
}

/// The date that lies `z` days after the first of March of year 0, by
/// eras of 400 years and years that start with March.
pub open spec fn civil_from_march_days(z: int) -> (int, int, int) {
    let era = z / 146097;
    let doe = z % 146097;
    let yoe = year_of_era(doe);
    let doy = doe - days_before_year_of_era(yoe);
    let mp = march_month(doy);
    let day = doy - days_before_march_month(mp) + 1;
    let month = if mp < 10 {
        mp + 3
    } else {
        mp - 9
    };
    let year = if month <= 2 {
        yoe + era * 400 + 1
    } else {
        yoe + era * 400
    };
    (year, month, day)
}

/// Whether the March year `yoe` of an era ends with a leap day: the year
/// after it is a leap year.
pub open spec fn ends_with_leap_day(yoe: int) -> bool {
    (yoe + 1) % 4 == 0 && ((yoe + 1) % 100 != 0 || yoe == 399)
}

/// The day of its March year on which the day `doe` of an era falls.
proof fn lemma_day_of_year(doe: int)
    requires
        0 <= doe <= 146096,
    ensures
        0 <= year_of_era(doe) <= 399,
        0 <= doe - days_before_year_of_era(year_of_era(doe)) <= 365,
        doe - days_before_year_of_era(year_of_era(doe)) == 365 ==> ends_with_leap_day(
            year_of_era(doe),
        ),
{
    lemma_year_of_era(doe);
    let yoe = year_of_era(doe);
    assert((yoe + 1) / 4 - yoe / 4 == if (yoe + 1) % 4 == 0 {
        1int
    } else {
        0int
    });
    assert((yoe + 1) / 100 - yoe / 100 == if (yoe + 1) % 100 == 0 {
        1int
    } else {
        0int
    });
}

/// The month of its March year in which the day `doy` falls.
proof fn lemma_march_month(doy: int)
    requires
        0 <= doy <= 365,
    ensures
        0 <= march_month(doy) <= 11,
        days_before_march_month(march_month(doy)) <= doy < days_before_march_month(
            march_month(doy) + 1,
        ),
{
    let mp = march_month(doy);
    assert(153 * mp <= 5 * doy + 2 < 153 * mp + 153);
    let before = days_before_march_month(mp);
    let after = days_before_march_month(mp + 1);
    assert(5 * before <= 153 * mp + 2 < 5 * before + 5);
    assert(5 * after <= 153 * mp + 155 < 5 * after + 5);
}

/// The year after the March year `yoe` of the era `era` is a leap year
/// where that March year ends with a leap day.
proof fn lemma_leap_of_era(era: int, yoe: int)
    requires
        0 <= era,
        0 <= yoe <= 399,
    ensures
        is_leap_year(era * 400 + yoe + 1) == ends_with_leap_day(yoe),
{
    let y = era * 400 + yoe + 1;
    assert(y % 4 == (yoe + 1) % 4) by {
        vstd::arithmetic::div_mod::lemma_mod_multiples_vanish(era * 100, yoe + 1, 4);
        assert(y == 4 * (era * 100) + (yoe + 1));
    }
    assert(y % 100 == (yoe + 1) % 100) by {
        vstd::arithmetic::div_mod::lemma_mod_multiples_vanish(era * 4, yoe + 1, 100);
        assert(y == 100 * (era * 4) + (yoe + 1));
    }
    assert(y % 400 == (yoe + 1) % 400) by {
        vstd::arithmetic::div_mod::lemma_mod_multiples_vanish(era, yoe + 1, 400);
        assert(y == 400 * era + (yoe + 1));
    }
}

/// The day of a month of a March year is a day of that month.
proof fn lemma_day_of_march_month(year: int, mp: int, day: int, leap: bool)
    requires
        0 <= mp <= 11,
        1 <= day <= days_before_march_month(mp + 1) - days_before_march_month(mp),
        mp == 11 ==> day <= 29 && (day == 29 ==> leap),
        mp == 11 ==> leap == is_leap_year(year),
    ensures
        day <= days_in_month(
            year,
            if mp < 10 {
                mp + 3
            } else {
                mp - 9
            },
        ),
{
    lemma_days_before_march_month();
}

/// That date exists, and lies as many days from the epoch as `z` says.
proof fn lemma_civil_from_march_days(z: int)
    requires
        306 <= z,
    ensures
        ({
            let (year, month, day) = civil_from_march_days(z);
            &&& 1 <= year
            &&& 1 <= month <= 12
            &&& 1 <= day <= days_in_month(year, month)
            &&& days_from_epoch(year, month, day) == z - 719468
        }),
{
    let era = z / 146097;
    let doe = z % 146097;
    let yoe = year_of_era(doe);
    let doy = doe - days_before_year_of_era(yoe);
    let mp = march_month(doy);
    let (year, month, day) = civil_from_march_days(z);
    let y = yoe + era * 400;
    lemma_day_of_year(doe);
    lemma_march_month(doy);
    assert(1 <= month <= 12);
    assert(y / 400 == era && y % 400 == yoe);
    assert(1 <= year) by {
        if y == 0 && month > 2 {
            assert(doe == z);
            lemma_days_before_march_month();
        }
    }
    assert(1 <= day <= days_in_month(year, month)) by {
        lemma_leap_of_era(era, yoe);
        if mp == 11 {
            lemma_days_before_march_month();
        }
        lemma_day_of_march_month(year, mp, day, ends_with_leap_day(yoe));
    }
    assert(days_from_epoch(year, month, day) == z - 719468) by {
        lemma_days_from_civil(year, month, day);
    }
}

/// The date that lies `z` days after the first of March of year 0.
fn civil_from_days(z: u64) -> (r: (u64, u64, u64))
    requires
        306 <= z <= 23936471,
    ensures
        (r.0 as int, r.1 as int, r.2 as int) == civil_from_march_days(z as int),
        1 <= r.0 <= 65535,
        1 <= r.1 <= 12,
        1 <= r.2 <= days_in_month(r.0 as int, r.1 as int),
        days_from_epoch(r.0 as int, r.1 as int, r.2 as int) == z - 719468,
{
    // The era: a cycle of 400 years.
    let era: u64 = z / 146097;
    let days_of_era: u64 = z % 146097;
    let year_of_era: u64 = (days_of_era - days_of_era / 1460 + days_of_era / 36524 - days_of_era
        / 146096) / 365;
    proof {
        lemma_year_of_era(days_of_era as int);
        lemma_civil_from_march_days(z as int);
        lemma_days_before_march_month();
    }
    let year = era * 400 + year_of_era;
    let days_before_year = year_of_era * 365 + year_of_era / 4 - year_of_era / 100;
    let day_of_year = days_of_era - days_before_year;
    // Months are shifted: March is 0, February is 11.
    let month_shifted = (5 * day_of_year + 2) / 153;
    let day_of_month = day_of_year - (153 * month_shifted + 2) / 5 + 1;
    let (final_year, final_month) = if month_shifted < 10 {
        (year, month_shifted + 3)
    } else {
        (year + 1, month_shifted - 9)
    };
    proof {
        lemma_year_bound(final_year as int, final_month as int, day_of_month as int);
    }
    (final_year, final_month, day_of_month)
}

/// The seconds that stand for `seconds` in a timestamp: those of the
/// first or the last moment that it can hold where `seconds` lie outside.
pub open spec fn clamped_unix_seconds(seconds: int) -> int {
    if seconds < MIN_UNIX_SECONDS {
        MIN_UNIX_SECONDS as int
    } else if seconds > MAX_UNIX_SECONDS {
        MAX_UNIX_SECONDS as int
    } else {
        seconds
    }
}

/// The one valid moment at a count of seconds is the moment of that count.
pub proof fn lemma_civil_of_unix(c: Civil, seconds: int)
    requires
        c.valid(),
        c.nanosecond == 0,
        c.unix_seconds() == clamped_unix_seconds(seconds),
    ensures
        c == civil_of_unix(seconds),
{
    let chosen = civil_of_unix(seconds);
    assert(chosen.valid() && chosen.nanosecond == 0 && chosen.unix_seconds()
        == clamped_unix_seconds(seconds));
    lemma_unix_seconds_injective(c, chosen);
}

/// The hour, the minute and the second of a second of the day.
fn time_of_day(seconds_in_day: u64) -> (r: (u8, u8, u8))
    requires
        seconds_in_day < 86400,
    ensures
        r.0 <= 23 && r.1 <= 59 && r.2 <= 59,
        seconds_in_day == r.0 * 3600 + r.1 * 60 + r.2,
{
    let hour = (seconds_in_day / 3600) as u8;
    let minute = ((seconds_in_day % 3600) / 60) as u8;
    let second = (seconds_in_day % 60) as u8;
    (hour, minute, second)
}

/// Break a Unix timestamp into the components of its date and time of
/// day. Seconds before 0001-01-01T00:00:00 or after 65535-12-31T23:59:59
/// give that moment.
pub fn unix_timestamp_to_components(timestamp: i64) -> (r: (u16, u8, u8, u8, u8, u8))
    ensures
        ({
            let c = Civil {
                year: r.0 as int,
                month: r.1 as int,
                day: r.2 as int,
                hour: r.3 as int,
                minute: r.4 as int,
                second: r.5 as int,
                nanosecond: 0,
            };
            c.valid() && c == civil_of_unix(timestamp as int)
        }),
{
    let clamped: i64 = if timestamp < MIN_UNIX_SECONDS {
        MIN_UNIX_SECONDS
    } else if timestamp > MAX_UNIX_SECONDS {
        MAX_UNIX_SECONDS
    } else {
        timestamp
    };
    // Seconds since 0001-01-01T00:00:00: none is negative.
    let since: u64 = (clamped - MIN_UNIX_SECONDS) as u64;
    let days: u64 = since / 86400;
    let (hour, minute, second) = time_of_day(since % 86400);
    // Days since the first of March of year 0: with the year starting in
    // March the leap day is its last day.
    let (year, month, day) = civil_from_days(days + 306);
    proof {
        let c = Civil {
            year: year as int,
            month: month as int,
            day: day as int,
            hour: hour as int,
            minute: minute as int,
            second: second as int,
            nanosecond: 0,
        };
        assert(since == days * 86400 + since % 86400);
        assert(days_from_epoch(c.year, c.month, c.day) == days - 719162);
        assert(c.unix_seconds() == (days - 719162) * 86400 + since % 86400);
        lemma_civil_of_unix(c, timestamp as int);
    }
    (year as u16, month as u8, day as u8, hour, minute, second)
}

/// Represents a timestamp found in a ZIP file: a date that exists and a
/// time of day, in the time zone that the type names.
#[derive(Debug, PartialEq, Eq, Hash, PartialOrd, Ord)]
pub struct ZipDateTime<TZ = Utc> {
    year: u16,
    month: u8,
    day: u8,
    hour: u8,
    minute: u8,
    second: u8,
    nanosecond: u32,
    _timezone: PhantomData<TZ>,
}

/// Type alias for UTC timestamps.
pub type UtcDateTime = ZipDateTime<Utc>;

/// Type alias for Local timestamps.
pub type LocalDateTime = ZipDateTime<Local>;

impl<TZ> View for ZipDateTime<TZ> {
    type V = Civil;

    closed spec fn view(&self) -> Civil {
        Civil {
            year: self.year as int,
            month: self.month as int,
            day: self.day as int,
            hour: self.hour as int,
            minute: self.minute as int,
            second: self.second as int,
            nanosecond: self.nanosecond as int,
        }
    }
}

impl<TZ> ZipDateTime<TZ> {
    #[verifier::type_invariant]
    spec fn is_valid(self) -> bool {
        self@.valid()
    }
}

impl<TZ> Copy for ZipDateTime<TZ> {

}

impl<TZ> Clone for ZipDateTime<TZ> {
    fn clone(&self) -> (r: Self)
        ensures
            r == *self,
    {
        *self
    }
}

impl<TZ: TimeZoneMarker> ZipDateTime<TZ> {
    /// Creates a ZipDateTime from date/time components with validation.
    ///
    /// Returns `None` if any component is out of its range or the date
    /// doesn't exist (February 30th, April 31st): the year is from 1 on, the
    /// month from 1 to 12, the day from 1 to the last of the month, the hour
    /// at most 23, minute and second at most 59, the nanosecond at most
    /// 999,999,999.
    pub fn from_components(
        year: u16,
        month: u8,
        day: u8,
        hour: u8,
        minute: u8,
        second: u8,
        nanosecond: u32,
    ) -> (r: Option<Self>)
        ensures
            ({
                let c = Civil {
                    year: year as int,
                    month: month as int,
                    day: day as int,
                    hour: hour as int,
                    minute: minute as int,
                    second: second as int,
                    nanosecond: nanosecond as int,
                };
                match r {
                    Some(t) => c.valid() && t@ == c,
                    None => !c.valid(),
                }
            }),
    {
        if year == 0 || month == 0 || month > 12 || day == 0 || hour > 23 || minute > 59 || second
            > 59 || nanosecond > 999_999_999 {
            return None;
        }
        let max_day = last_day_of_month(year, month);
        if day > max_day {
            return None;
        }
        Some(
            ZipDateTime {
                year,
                month,
                day,
                hour,
                minute,
                second,
                nanosecond,
                _timezone: PhantomData,
            },
        )
    }

    /// Returns the year component of the timestamp.
    #[must_use]
    pub fn year(&self) -> (r: u16)
        ensures
            r == self@.year,
            self@.valid(),
    {
        proof {
            use_type_invariant(self);
        }
        self.year
    }

    /// Returns the month component (1-12) of the timestamp.
    #[must_use]
    pub fn month(&self) -> (r: u8)
        ensures
            r == self@.month,
            self@.valid(),
    {
        proof {
            use_type_invariant(self);
        }
        self.month
    }

    /// Returns the day component (1-31) of the timestamp.
    #[must_use]
    pub fn day(&self) -> (r: u8)
        ensures
            r == self@.day,
            self@.valid(),
    {
        proof {
            use_type_invariant(self);
        }
        self.day
    }

    /// Returns the hour component (0-23) of the timestamp.
    #[must_use]
    pub fn hour(&self) -> (r: u8)
        ensures
            r == self@.hour,
            self@.valid(),
    {
        proof {
            use_type_invariant(self);
        }
        self.hour
    }

    /// Returns the minute component (0-59) of the timestamp.
    #[must_use]
    pub fn minute(&self) -> (r: u8)
        ensures
            r == self@.minute,
            self@.valid(),
    {
        proof {
            use_type_invariant(self);
        }
        self.minute
    }

    /// Returns the second component (0-59) of the timestamp.
    #[must_use]
    pub fn second(&self) -> (r: u8)
        ensures
            r == self@.second,
            self@.valid(),
    {
        proof {
            use_type_invariant(self);
        }
        self.second
    }

    /// Returns the nanosecond component (0-999,999,999) of the timestamp.
    /// It is 0 for timestamps from a source that counts whole seconds.
    #[must_use]
    pub fn nanosecond(&self) -> (r: u32)
        ensures
            r == self@.nanosecond,
            self@.valid(),
    {
        proof {
            use_type_invariant(self);
        }
        self.nanosecond
    }

    /// Returns the timezone of this timestamp.
    #[must_use]
    pub fn timezone(&self) -> (z: TimeZone)
        ensures
            z == TZ::zone(),
    {
        TZ::timezone()
    }

    /// Calculate days since Unix epoch (1970-01-01) for this date.
    ///
    /// Negative values indicate dates prior to 1970-01-01.
    pub fn days_from_civil(&self) -> (days: i32)
        ensures
            days == days_from_epoch(self@.year, self@.month, self@.day),
    {
        proof {
            use_type_invariant(self);
        }
        days_from_civil_parts(self.year, self.month, self.day)
    }
}

impl ZipDateTime<Utc> {
    /// Creates a ZipDateTime from a Unix timestamp (seconds since epoch).
    ///
    /// Seconds before 0001-01-01T00:00:00 or after 65535-12-31T23:59:59 give
    /// that moment.
    pub fn from_unix(seconds: i64) -> (t: UtcDateTime)
        ensures
            t@ == civil_of_unix(seconds as int),
            t@.valid(),
    {
        let (year, month, day, hour, minute, second) = unix_timestamp_to_components(seconds);
        ZipDateTime { year, month, day, hour, minute, second, nanosecond: 0, _timezone: PhantomData }
    }

    /// Creates a ZipDateTime from an NTFS timestamp (100ns ticks since
    /// 1601-01-01). Ticks before the Unix epoch give the epoch.
    pub fn from_ntfs(ticks: u64) -> (t: UtcDateTime)
        ensures
            t@ == civil_of_ntfs(ticks as int),
            t@.valid(),
    {
        let unix_seconds = (ticks / 10_000_000).saturating_sub(NTFS_EPOCH_OFFSET) as i64;
        let (year, month, day, hour, minute, second) = unix_timestamp_to_components(unix_seconds);
        let nanosecond = ((ticks % 10_000_000) * 100) as u32;
        ZipDateTime { year, month, day, hour, minute, second, nanosecond, _timezone: PhantomData }
    }

    /// Convert to Unix timestamp (seconds since epoch).
    ///
    /// Returns the number of seconds since the Unix epoch (1970-01-01
    /// 00:00:00 UTC). Negative values represent dates before 1970.
    #[must_use]
    pub fn to_unix(&self) -> (seconds: i64)
        ensures
            seconds == self@.unix_seconds(),
            MIN_UNIX_SECONDS <= seconds <= MAX_UNIX_SECONDS,
    {
        proof {
            use_type_invariant(self);
            lemma_unix_seconds_range(self@);
        }
        let days_since_epoch = self.days_from_civil();
        (days_since_epoch as i64) * 86400 + (self.hour as i64) * 3600 + (self.minute as i64) * 60
            + (self.second as i64)
    }
}

/// The seconds of a valid moment lie between those of the first and the
/// last moment that a timestamp can hold.
pub proof fn lemma_unix_seconds_range(c: Civil)
    requires
        c.valid(),
    ensures
        MIN_UNIX_SECONDS <= c.unix_seconds() <= MAX_UNIX_SECONDS,
        -719162 <= days_from_epoch(c.year, c.month, c.day) <= 23217003,
{
    lemma_day_within_year(c.year, c.month, c.day);
    lemma_days_before_year_monotonic(1, c.year);
    lemma_days_before_next_year(c.year);
    lemma_days_before_year_monotonic(c.year + 1, 65536);
    assert(days_before_year(65536) == 23936166);
    assert(days_before_year(1) == 0);
}

/// A moment that is turned into seconds and back is the same moment, to
/// the second.
pub proof fn lemma_unix_round_trip(c: Civil)
    requires
        c.valid(),
    ensures
        civil_of_unix(c.unix_seconds()) == (Civil { nanosecond: 0, ..c }),
{
    lemma_unix_seconds_range(c);
    lemma_civil_of_unix(Civil { nanosecond: 0, ..c }, c.unix_seconds());
}

/// Seconds between 1601-01-01 and 1970-01-01.
pub const NTFS_EPOCH_OFFSET: u64 = 11644473600;

/// The moment that an NTFS timestamp names: `ticks` of 100 nanoseconds
/// after 1601-01-01T00:00:00. The seconds before the Unix epoch are not
/// counted.
pub open spec fn civil_of_ntfs(ticks: int) -> Civil {
    let seconds = ticks / 10_000_000 - NTFS_EPOCH_OFFSET;
    let c = civil_of_unix(
        if seconds < 0 {
            0
        } else {
            seconds
        },
    );
    Civil { nanosecond: (ticks % 10_000_000) * 100, ..c }
}

/// A count of seconds names a valid moment.
pub proof fn lemma_civil_of_unix_valid(seconds: int)
    ensures
        civil_of_unix(seconds).valid(),
        civil_of_unix(seconds).nanosecond == 0,
        civil_of_unix(seconds).unix_seconds() == clamped_unix_seconds(seconds),
{
    let s = clamped_unix_seconds(seconds);
    let days = (s - MIN_UNIX_SECONDS) / 86400;
    let rest = (s - MIN_UNIX_SECONDS) % 86400;
    lemma_civil_from_march_days(days + 306);
    let (year, month, day) = civil_from_march_days(days + 306);
    lemma_year_bound(year, month, day);
    let c = Civil {
        year,
        month,
        day,
        hour: rest / 3600,
        minute: (rest % 3600) / 60,
        second: rest % 60,
        nanosecond: 0,
    };
    assert(c.valid());
    assert(c.unix_seconds() == s);
}

/// A timestamp that was read from an archive: UTC or local, by its source.
#[derive(Debug, Clone, Copy, PartialEq, Eq)]
pub enum ZipDateTimeKind {
    Utc(UtcDateTime),
    Local(LocalDateTime),
}

impl View for ZipDateTimeKind {
    type V = Civil;

    open spec fn view(&self) -> Civil {
        match self {
            ZipDateTimeKind::Utc(dt) => dt@,
            ZipDateTimeKind::Local(dt) => dt@,
        }
    }
}

impl ZipDateTimeKind {
    /// The time zone of this timestamp.
    pub open spec fn zone(&self) -> TimeZone {
        match self {
            ZipDateTimeKind::Utc(_) => TimeZone::Utc,
            ZipDateTimeKind::Local(_) => TimeZone::Local,
        }
    }

    /// Returns the timezone of this timestamp.
    #[must_use]
    pub fn timezone(&self) -> (z: TimeZone)
        ensures
            z == self.zone(),
    {
        match self {
            ZipDateTimeKind::Utc(_) => TimeZone::Utc,
            ZipDateTimeKind::Local(_) => TimeZone::Local,
        }
    }

    /// Returns the year component of the timestamp.
    #[must_use]
    pub fn year(&self) -> (r: u16)
        ensures
            r == self@.year,
    {
        match self {
            ZipDateTimeKind::Utc(dt) => dt.year(),
            ZipDateTimeKind::Local(dt) => dt.year(),
        }
    }

    /// Returns the month component (1-12) of the timestamp.
    #[must_use]
    pub fn month(&self) -> (r: u8)
        ensures
            r == self@.month,
    {
        match self {
            ZipDateTimeKind::Utc(dt) => dt.month(),
            ZipDateTimeKind::Local(dt) => dt.month(),
        }
    }

    /// Returns the day component (1-31) of the timestamp.
    #[must_use]
    pub fn day(&self) -> (r: u8)
        ensures
            r == self@.day,
    {
        match self {
            ZipDateTimeKind::Utc(dt) => dt.day(),
            ZipDateTimeKind::Local(dt) => dt.day(),
        }
    }

    /// Returns the hour component (0-23) of the timestamp.
    #[must_use]
    pub fn hour(&self) -> (r: u8)
        ensures
            r == self@.hour,
    {
        match self {
            ZipDateTimeKind::Utc(dt) => dt.hour(),
            ZipDateTimeKind::Local(dt) => dt.hour(),
        }
    }

    /// Returns the minute component (0-59) of the timestamp.
    #[must_use]
    pub fn minute(&self) -> (r: u8)
        ensures
            r == self@.minute,
    {
        match self {
            ZipDateTimeKind::Utc(dt) => dt.minute(),
            ZipDateTimeKind::Local(dt) => dt.minute(),
        }
    }

    /// Returns the second component (0-59) of the timestamp.
    #[must_use]
    pub fn second(&self) -> (r: u8)
        ensures
            r == self@.second,
    {
        match self {
            ZipDateTimeKind::Utc(dt) => dt.second(),
            ZipDateTimeKind::Local(dt) => dt.second(),
        }
    }

    /// Returns the nanosecond component (0-999,999,999) of the timestamp.
    #[must_use]
    pub fn nanosecond(&self) -> (r: u32)
        ensures
            r == self@.nanosecond,
    {
        match self {
            ZipDateTimeKind::Utc(dt) => dt.nanosecond(),
            ZipDateTimeKind::Local(dt) => dt.nanosecond(),
        }
    }
}

/// Represents an MS-DOS timestamp: a date and a time packed into 16 bits
/// each, with years from 1980 to 2107 and seconds that come in twos.
#[derive(Debug, Clone, Copy, PartialEq, Eq, Structural)]
pub struct DosDateTime {
    pub time: u16,
    pub date: u16,
}

/// The year of a packed date: its upper seven bits, counted from 1980.
pub open spec fn dos_year(date: int) -> int {
    date / 512 % 128 + 1980
}

/// The month of a packed date: the four bits above the day, brought into
/// the range from 1 to 12.
pub open spec fn dos_month(date: int) -> int {
    let raw = date / 32 % 16;
    if raw < 1 {
        1
    } else if raw > 12 {
        12
    } else {
        raw
    }
}

/// The day of a packed date: its lowest five bits, brought into the range
/// from 1 to the last day of the month.
pub open spec fn dos_day(date: int) -> int {
    let raw = date % 32;
    let last = days_in_month(dos_year(date), dos_month(date));
    if raw < 1 {
        1
    } else if raw > last {
        last
    } else {
        raw
    }
}

/// The hour of a packed time: its upper five bits, at most 23.
pub open spec fn dos_hour(time: int) -> int {
    let raw = time / 2048 % 32;
    if raw > 23 {
        23
    } else {
        raw
    }
}

/// The minute of a packed time: the six bits above the seconds, at most 59.
pub open spec fn dos_minute(time: int) -> int {
    let raw = time / 32 % 64;
    if raw > 59 {
        59
    } else {
        raw
    }
}

/// The second of a packed time: twice its lowest five bits, at most 58.
pub open spec fn dos_second(time: int) -> int {
    let raw = (time % 32) * 2;
    if raw > 58 {
        58
    } else {
        raw
    }
}

/// The moment that a packed date and time name. A date and a time of
/// zeros name 1980-01-01T00:00:00.
pub open spec fn dos_civil(time: int, date: int) -> Civil {
    Civil {
        year: dos_year(date),
        month: dos_month(date),
        day: dos_day(date),
        hour: dos_hour(time),
        minute: dos_minute(time),
        second: dos_second(time),
        nanosecond: 0,
    }
}

/// The packed date of a moment. The year is brought into the range from
/// 1980 to 2107.
pub open spec fn dos_date_of(c: Civil) -> int {
    let year = if c.year < 1980 {
        1980
    } else if c.year > 2107 {
        2107
    } else {
        c.year
    };
    (year - 1980) * 512 + c.month * 32 + c.day
}

/// The packed time of a moment. An odd second loses its last bit.
pub open spec fn dos_time_of(c: Civil) -> int {
    c.hour * 2048 + c.minute * 32 + c.second / 2
}

/// A moment that is packed and unpacked is the same moment, but for the
/// year, which is brought into the range from 1980 to 2107, for the second,
/// which is even, and for the nanosecond, which is 0. The day is kept where
/// the month of that year has it.
pub proof fn lemma_dos_round_trip(c: Civil)
    requires
        c.valid(),
    ensures
        0 <= dos_date_of(c) <= 0xFFFF,
        0 <= dos_time_of(c) <= 0xFFFF,
        ({
            let back = dos_civil(dos_time_of(c), dos_date_of(c));
            &&& back.year == if c.year < 1980 {
                1980
            } else if c.year > 2107 {
                2107
            } else {
                c.year
            }
            &&& back.month == c.month
            &&& back.day == if c.day <= days_in_month(back.year, c.month) {
                c.day
            } else {
                days_in_month(back.year, c.month)
            }
            &&& back.hour == c.hour
            &&& back.minute == c.minute
            &&& back.second == c.second - c.second % 2
            &&& back.nanosecond == 0
        }),
{
}

/// A packed date and time name a moment that exists.
pub proof fn lemma_dos_civil_valid(time: int, date: int)
    requires
        0 <= time <= 0xFFFF,
        0 <= date <= 0xFFFF,
    ensures
        dos_civil(time, date).valid(),
        1980 <= dos_civil(time, date).year <= 2107,
{
}

impl DosDateTime {
    /// Creates a new MS-DOS datetime from packed date and time values.
    #[must_use]
    pub fn new(time: u16, date: u16) -> (d: Self)
        ensures
            d.time == time,
            d.date == date,
    {
        DosDateTime { time, date }
    }

    /// Returns the year (1980-2107).
    #[must_use]
    pub fn year(&self) -> (r: u16)
        ensures
            r == dos_year(self.date as int),
    {
        self.date / 512 + 1980
    }

    /// Returns the month (1-12).
    #[must_use]
    pub fn month(&self) -> (r: u8)
        ensures
            r == dos_month(self.date as int),
    {
        let raw_month = ((self.date / 32) % 16) as u8;
        if raw_month < 1 {
            1
        } else if raw_month > 12 {
            12
        } else {
            raw_month
        }
    }

    /// Returns the day of the month (1-31).
    #[must_use]
    pub fn day(&self) -> (r: u8)
        ensures
            r == dos_day(self.date as int),
    {
        let raw_day = (self.date % 32) as u8;
        let last = last_day_of_month(self.year(), self.month());
        if raw_day < 1 {
            1
        } else if raw_day > last {
            last
        } else {
            raw_day
        }
    }

    /// Returns the hour (0-23).
    #[must_use]
    pub fn hour(&self) -> (r: u8)
        ensures
            r == dos_hour(self.time as int),
    {
        let raw_hour = (self.time / 2048) as u8;
        if raw_hour > 23 {
            23
        } else {
            raw_hour
        }
    }

    /// Returns the minute (0-59).
    #[must_use]
    pub fn minute(&self) -> (r: u8)
        ensures
            r == dos_minute(self.time as int),
    {
        let raw_minute = ((self.time / 32) % 64) as u8;
        if raw_minute > 59 {
            59
        } else {
            raw_minute
        }
    }

    /// Returns the second (0-58, always even).
    #[must_use]
    pub fn second(&self) -> (r: u8)
        ensures
            r == dos_second(self.time as int),
    {
        let raw_second = ((self.time % 32) * 2) as u8;
        if raw_second > 58 {
            58
        } else {
            raw_second
        }
    }

    /// Returns the packed time and date components as (time, date).
    #[must_use]
    pub fn into_parts(self) -> (r: (u16, u16))
        ensures
            r.0 == self.time,
            r.1 == self.date,
    {
        (self.time, self.date)
    }
}

impl From<&ZipDateTime<Utc>> for DosDateTime {
    fn from(zip_dt: &ZipDateTime<Utc>) -> (d: DosDateTime) {
        proof {
            use_type_invariant(zip_dt);
            lemma_dos_round_trip(zip_dt@);
        }
        // Saturate year to DOS range (1980-2107)
        let dos_year: u16 = if zip_dt.year < 1980 {
            1980
        } else if zip_dt.year > 2107 {
            2107
        } else {
            zip_dt.year
        };
        // The date: 7 bits of year, 4 bits of month, 5 bits of day.
        let packed_date: u16 = (dos_year - 1980) * 512 + (zip_dt.month as u16) * 32
            + zip_dt.day as u16;
        // The time: 5 bits of hour, 6 bits of minute, 5 bits of second / 2.
        let packed_time: u16 = (zip_dt.hour as u16) * 2048 + (zip_dt.minute as u16) * 32
            + (zip_dt.second as u16) / 2;
        DosDateTime { time: packed_time, date: packed_date }
    }
}

impl vstd::std_specs::convert::FromSpecImpl<&ZipDateTime<Utc>> for DosDateTime {
    open spec fn obeys_from_spec() -> bool {
        true
    }

    open spec fn from_spec(zip_dt: &ZipDateTime<Utc>) -> DosDateTime {
        DosDateTime { time: dos_time_of(zip_dt@) as u16, date: dos_date_of(zip_dt@) as u16 }
    }
}

impl ZipDateTime<Local> {
    /// Creates a ZipDateTime from a DosDateTime. Fields that hold no month
    /// or day, or a time that does not exist, give the nearest that does.
    pub fn from_dos(dos: DosDateTime) -> (t: LocalDateTime)
        ensures
            t@ == dos_civil(dos.time as int, dos.date as int),
            t@.valid(),
    {
        proof {
            lemma_dos_civil_valid(dos.time as int, dos.date as int);
        }
        ZipDateTime {
            year: dos.year(),
            month: dos.month(),
            day: dos.day(),
            hour: dos.hour(),
            minute: dos.minute(),
            second: dos.second(),
            nanosecond: 0,
            _timezone: PhantomData,
        }
    }
}

/// The id of the extended timestamp extra field ("UT").
pub const EXTENDED_TIMESTAMP_ID: u16 = 0x5455;

/// The id of the obsolete Unix timestamp extra field ("UX").
pub const UNIX_TIMESTAMP_ID: u16 = 0x5855;

/// The id of the NTFS extra field.
pub const NTFS_TIMESTAMP_ID: u16 = 0x000a;

/// The modification time that the data of an NTFS extra field holds: 4
/// reserved bytes, a tag that must be 1, a size of at least 24 that the data
/// must have room for, and the ticks of the modification time. The field
/// must have 32 bytes at least.
pub open spec fn ntfs_timestamp(data: Seq<u8>) -> Option<Civil> {
    if data.len() >= 32 && le_u16_at(data, 4) == 1 && le_u16_at(data, 6) >= 24 && data.len() >= 8
        + le_u16_at(data, 6) {
        Some(civil_of_ntfs(le_u64_at(data, 8)))
    } else {
        None
    }
}

/// The modification time that the data of an extended timestamp extra
/// field holds: a byte of flags whose lowest bit says that it is there, and
/// its Unix seconds in 4 bytes.
pub open spec fn extended_timestamp(data: Seq<u8>) -> Option<Civil> {
    if data.len() >= 5 && data[0] % 2 == 1 {
        Some(civil_of_unix(le_u32_at(data, 1)))
    } else {
        None
    }
}

/// The modification time that the data of an obsolete Unix extra field
/// holds: its Unix seconds in 4 bytes, behind those of the access time.
pub open spec fn unix_timestamp(data: Seq<u8>) -> Option<Civil> {
    if data.len() >= 8 {
        Some(civil_of_unix(le_u32_at(data, 4)))
    } else {
        None
    }
}

/// The modification time that a block of an extra field holds, by its id.
pub open spec fn block_timestamp(id: int, data: Seq<u8>) -> Option<Civil> {
    if id == NTFS_TIMESTAMP_ID {
        ntfs_timestamp(data)
    } else if id == EXTENDED_TIMESTAMP_ID {
        extended_timestamp(data)
    } else if id == UNIX_TIMESTAMP_ID {
        unix_timestamp(data)
    } else {
        None
    }
}

/// The modification time that the last block of `extra` with one holds,
/// or `found` where no block holds one. The walk ends at a block that is
/// not whole.
pub open spec fn last_timestamp(extra: Seq<u8>, found: Option<Civil>) -> Option<Civil>
    decreases extra.len(),
{
    if extra.len() < 4 || 4 + le_u16_at(extra, 2) > extra.len() {
        found
    } else {
        let end = 4 + le_u16_at(extra, 2);
        let here = block_timestamp(le_u16_at(extra, 0), extra.subrange(4, end));
        last_timestamp(
            extra.subrange(end, extra.len() as int),
            if here is Some {
                here
            } else {
                found
            },
        )
    }
}

/// The best timestamp of a record: the modification time of the last
/// block of its extra field that holds one, in UTC; else that of the DOS
/// fields, in local time.
pub open spec fn best_timestamp(extra: Seq<u8>, dos_time: u16, dos_date: u16) -> (TimeZone, Civil) {
    match last_timestamp(extra, None) {
        Some(c) => (TimeZone::Utc, c),
        None => (TimeZone::Local, dos_civil(dos_time as int, dos_date as int)),
    }
}

/// Parses NTFS timestamp extra field (0x000a).
pub fn parse_ntfs_timestamp(data: &[u8]) -> (r: Option<UtcDateTime>)
    ensures
        match r {
            Some(t) => ntfs_timestamp(data@) == Some(t@),
            None => ntfs_timestamp(data@) is None,
        },
{
    if data.len() < 32 {
        return None;
    }
    let tag = read_u16(data, 4);
    if tag != 0x0001 {
        return None;
    }
    let size = read_u16(data, 6) as usize;
    if size < 24 || data.len() < 8 + size {
        return None;
    }
    // The modification time comes first of the three.
    let mtime_ticks = read_u64(data, 8);
    Some(UtcDateTime::from_ntfs(mtime_ticks))
}

/// Parses Extended Timestamp extra field (0x5455).
pub fn parse_extended_timestamp(data: &[u8]) -> (r: Option<UtcDateTime>)
    ensures
        match r {
            Some(t) => extended_timestamp(data@) == Some(t@),
            None => extended_timestamp(data@) is None,
        },
{
    if data.len() < 5 {
        return None;
    }
    let flags = data[0];
    // Bit 0 says that the modification time is present.
    if flags % 2 == 1 {
        let mtime_seconds = read_u32(data, 1);
        return Some(UtcDateTime::from_unix(mtime_seconds as i64));
    }
    None
}

/// Parses Unix timestamp extra field (0x5855), the obsolete format.
pub fn parse_unix_timestamp(data: &[u8]) -> (r: Option<UtcDateTime>)
    ensures
        match r {
            Some(t) => unix_timestamp(data@) == Some(t@),
            None => unix_timestamp(data@) is None,
        },
{
    if data.len() < 8 {
        return None;
    }
    // The access time comes first, then the modification time.
    let mtime_seconds = read_u32(data, 4);
    Some(UtcDateTime::from_unix(mtime_seconds as i64))
}

/// The view of a timestamp that may be there.
pub open spec fn civil_of(t: Option<UtcDateTime>) -> Option<Civil> {
    match t {
        Some(t) => Some(t@),
        None => None,
    }
}

/// Extracts the timestamp of a record: the last one that its extra field
/// holds, or that of the MS-DOS fields where it holds none.
pub fn extract_best_timestamp(extra_field: &[u8], dos_time: u16, dos_date: u16) -> (r:
    ZipDateTimeKind)
    ensures
        (r.zone(), r@) == best_timestamp(extra_field@, dos_time, dos_date),
{
    let len = extra_field.len();
    let mut pos: usize = 0;
    let mut last_found: Option<UtcDateTime> = None;
    assert(extra_field@.subrange(0, len as int) =~= extra_field@);
    while len - pos >= 4
        invariant
            pos <= len,
            len == extra_field@.len(),
            last_timestamp(extra_field@, None) == last_timestamp(
                extra_field@.subrange(pos as int, len as int),
                civil_of(last_found),
            ),
        ensures
            last_timestamp(extra_field@, None) == civil_of(last_found),
        decreases len - pos,
    {
        let ghost rest = extra_field@.subrange(pos as int, len as int);
        let field_id = read_u16(extra_field, pos);
        let field_size = read_u16(extra_field, pos + 2) as usize;
        let start = pos + 4;
        proof {
            assert(le_u16_at(rest, 0) == field_id);
            assert(le_u16_at(rest, 2) == field_size);
        }
        if field_size > len - start {
            break;
        }
        let end = start + field_size;
        let field_data = &extra_field[start..end];
        proof {
            assert(rest.subrange(4, 4 + field_size) =~= field_data@);
            assert(rest.subrange(4 + field_size, rest.len() as int) =~= extra_field@.subrange(
                end as int,
                len as int,
            ));
        }
        let here = if field_id == NTFS_TIMESTAMP_ID {
            parse_ntfs_timestamp(field_data)
        } else if field_id == EXTENDED_TIMESTAMP_ID {
            parse_extended_timestamp(field_data)
        } else if field_id == UNIX_TIMESTAMP_ID {
            parse_unix_timestamp(field_data)
        } else {
            None
        };
        assert(civil_of(here) == block_timestamp(field_id as int, field_data@));
        if here.is_some() {
            last_found = here;
        }
        pos = end;
    }
    match last_found {
        Some(t) => ZipDateTimeKind::Utc(t),
        None => ZipDateTimeKind::Local(LocalDateTime::from_dos(DosDateTime::new(dos_time, dos_date))),
    }
}

/// The text of a moment by ISO 8601: the date, a `T`, and the time of
/// day, with the nanoseconds behind a point unless they are 0, and a `Z`
/// for UTC.
pub open spec fn iso_text(c: Civil, zone: TimeZone) -> Seq<char> {
    let seconds = decimal(c.year as nat, 4) + seq!['-'] + decimal(c.month as nat, 2) + seq!['-']
        + decimal(c.day as nat, 2) + seq!['T'] + decimal(c.hour as nat, 2) + seq![':'] + decimal(
        c.minute as nat,
        2,
    ) + seq![':'] + decimal(c.second as nat, 2);
    let nanos = if c.nanosecond != 0 {
        seq!['.'] + decimal(c.nanosecond as nat, 9)
    } else {
        Seq::empty()
    };
    let mark = if zone == TimeZone::Utc {
        seq!['Z']
    } else {
        Seq::empty()
    };
    seconds + nanos + mark
}

/// The text of a moment by ISO 8601.
fn iso_chars(
    year: u16,
    month: u8,
    day: u8,
    hour: u8,
    minute: u8,
    second: u8,
    nanosecond: u32,
    zone: TimeZone,
) -> (out: Vec<char>)
    ensures
        out@ == iso_text(
            Civil {
                year: year as int,
                month: month as int,
                day: day as int,
                hour: hour as int,
                minute: minute as int,
                second: second as int,
                nanosecond: nanosecond as int,
            },
            zone,
        ),
{
    let mut out: Vec<char> = Vec::new();
    push_decimal(&mut out, year as u64, 4);
    out.push('-');
    push_decimal(&mut out, month as u64, 2);
    out.push('-');
    push_decimal(&mut out, day as u64, 2);
    out.push('T');
    push_decimal(&mut out, hour as u64, 2);
    out.push(':');
    push_decimal(&mut out, minute as u64, 2);
    out.push(':');
    push_decimal(&mut out, second as u64, 2);
    let ghost seconds = out@;
    if nanosecond != 0 {
        out.push('.');
        push_decimal(&mut out, nanosecond as u64, 9);
    }
    let ghost nanos = out@.subrange(seconds.len() as int, out@.len() as int);
    match zone {
        TimeZone::Utc => {
            out.push('Z');
        },
        TimeZone::Local => {},
    }
    proof {
        let c = Civil {
            year: year as int,
            month: month as int,
            day: day as int,
            hour: hour as int,
            minute: minute as int,
            second: second as int,
            nanosecond: nanosecond as int,
        };
        assert(seconds =~= decimal(c.year as nat, 4) + seq!['-'] + decimal(c.month as nat, 2)
            + seq!['-'] + decimal(c.day as nat, 2) + seq!['T'] + decimal(c.hour as nat, 2)
            + seq![':'] + decimal(c.minute as nat, 2) + seq![':'] + decimal(c.second as nat, 2));
        if nanosecond != 0 {
            assert(nanos =~= seq!['.'] + decimal(c.nanosecond as nat, 9));
        } else {
            assert(nanos =~= Seq::<char>::empty());
        }
        assert(out@ =~= seconds + nanos + if zone == TimeZone::Utc {
            seq!['Z']
        } else {
            Seq::<char>::empty()
        });
    }
    out
}

impl<TZ: TimeZoneMarker> ZipDateTime<TZ> {
    /// The timestamp as text by ISO 8601: `2023-06-15T14:30:42`, with the
    /// nanoseconds behind a point unless they are 0, and a `Z` behind a UTC
    /// timestamp.
    pub fn to_string(&self) -> (s: String)
        ensures
            s@ == iso_text(self@, TZ::zone()),
    {
        string_of(
            &iso_chars(
                self.year,
                self.month,
                self.day,
                self.hour,
                self.minute,
                self.second,
                self.nanosecond,
                TZ::timezone(),
            ),
        )
    }
}

impl ZipDateTimeKind {
    /// The timestamp as text by ISO 8601, with a `Z` behind a UTC timestamp.
    pub fn to_string(&self) -> (s: String)
        ensures
            s@ == iso_text(self@, self.zone()),
    {
        match self {
            ZipDateTimeKind::Utc(dt) => dt.to_string(),
            ZipDateTimeKind::Local(dt) => dt.to_string(),
        }
    }
}

} // verus!
