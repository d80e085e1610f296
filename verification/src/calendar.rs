//! Civil dates of the proleptic Gregorian calendar, counted in days and
//! seconds from 1970-01-01.
use vstd::prelude::*;

verus! {

/// Seconds in a day.
pub const SECS_PER_DAY: i64 = 86400;

/// A capture time as EXIF writes it: naive local time, its numbers not checked
/// against any calendar.
#[derive(Clone, Copy, Debug, PartialEq, Eq, Structural)]
pub struct CivilDateTime {
    pub year: u16,
    pub month: u8,
    pub day: u8,
    pub hour: u8,
    pub minute: u8,
    pub second: u8,
}

impl CivilDateTime {
    /// The moment exists: its date is on the calendar and its clock reads less
    /// than 24 hours.
    pub open spec fn valid(self) -> bool {
        &&& valid_date(self.year as int, self.month as int, self.day as int)
        &&& self.hour < 24
        &&& self.minute < 60
        &&& self.second < 60
    }

    /// Seconds since midnight on this clock.
    pub open spec fn clock_secs(self) -> int {
        self.hour * 3600 + self.minute * 60 + self.second
    }

    /// Seconds from 1970-01-01 00:00:00 to this moment.
    pub open spec fn secs(self) -> int {
        civil_days(self.year as int, self.month as int, self.day as int) * SECS_PER_DAY
            + self.clock_secs()
    }

    /// This moment comes before the other one.
    pub open spec fn earlier_than(self, other: CivilDateTime) -> bool {
        ||| date_before(
            (self.year as int, self.month as int, self.day as int),
            (other.year as int, other.month as int, other.day as int),
        )
        ||| {
            &&& (self.year, self.month, self.day) == (other.year, other.month, other.day)
            &&& self.clock_secs() < other.clock_secs()
        }
    }
}

/// The Gregorian leap year rule.
pub open spec fn is_leap_year(y: int) -> bool {
    y % 4 == 0 && (y % 100 != 0 || y % 400 == 0)
}

/// The length of month `m` (January is 1) of year `y`.
pub open spec fn days_in_month(y: int, m: int) -> int {
    if m == 2 {
        if is_leap_year(y) { 29 } else { 28 }
    } else if m == 4 || m == 6 || m == 9 || m == 11 {
        30
    } else {
        31
    }
}

/// The date is on the calendar.
pub open spec fn valid_date(y: int, m: int, d: int) -> bool {
    1 <= m <= 12 && 1 <= d <= days_in_month(y, m)
}

/// The day after a date of the calendar.
pub open spec fn next_date(y: int, m: int, d: int) -> (int, int, int) {
    if d < days_in_month(y, m) {
        (y, m, d + 1)
    } else if m < 12 {
        (y, m + 1, 1)
    } else {
        (y + 1, 1, 1)
    }
}

/// The order of dates: by year, then month, then day.
pub open spec fn date_before(a: (int, int, int), b: (int, int, int)) -> bool {
    a.0 < b.0 || (a.0 == b.0 && (a.1 < b.1 || (a.1 == b.1 && a.2 < b.2)))
}

/// Days from the first of March to the first of the `n`-th month after it.
pub open spec fn days_after_march(n: int) -> int {
    if n <= 0 {
        0
    } else if n == 1 {
        31
    } else if n == 2 {
        61
    } else if n == 3 {
        92
    } else if n == 4 {
        122
    } else if n == 5 {
        153
    } else if n == 6 {
        184
    } else if n == 7 {
        214
    } else if n == 8 {
        245
    } else if n == 9 {
        275
    } else if n == 10 {
        306
    } else {
        337
    }
}

/// Days from 1970-01-01 to the first of March of year `y`: 365 to a year and
/// one more for each leap day.
pub open spec fn first_of_march(y: int) -> int {
    365 * y + y / 4 - y / 100 + y / 400 - 719468
}

/// The day number of year `y`, month `m`, day `d`, where 1970-01-01 is 0.
///
/// Years are taken to begin in March, so that a leap day is the last of its
/// year. Numbers off the calendar count too: a month is taken modulo 12, in the
/// year that began in March of `y` (of `y - 1` for `m` up to 2), and days run on
/// from the first of the month.
pub open spec fn civil_days(y: int, m: int, d: int) -> int {
    first_of_march(if m <= 2 { y - 1 } else { y }) + days_after_march((m + 9) % 12) + d - 1
}

/// Days since 1970-01-01 for a civil year, month and day.
///
/// On every date of the proleptic Gregorian calendar this is the calendar's own
/// count: see [`law_count_follows_calendar`].
pub fn days_from_civil(y: i64, m: u32, d: u32) -> (days: i64)
    requires
        i64::MIN <= civil_days(y as int, m as int, d as int) <= i64::MAX,
    ensures
        days == civil_days(y as int, m as int, d as int),
{
    let y: i128 = if m <= 2 { y as i128 - 1 } else { y as i128 };
    let era: i128 = (if y >= 0 { y } else { y - 399 }) / 400;
    let yoe: i128 = y - era * 400;
    let mp: i128 = (m as i128 + 9) % 12;
    let doy: i128 = (153 * mp + 2) / 5 + d as i128 - 1;
    let doe: i128 = yoe * 365 + yoe / 4 - yoe / 100 + doy;
    assert(era == y as int / 400);
    assert(y as int / 4 == era * 100 + yoe / 4);
    assert(y as int / 100 == era * 4 + yoe / 100);
    (era * 146097 + doe - 719468) as i64
}

/// Seconds since 1970-01-01 00:00:00 for a date and time as EXIF gives them.
pub fn exif_datetime_to_secs(dt: &CivilDateTime) -> (secs: i64)
    ensures
        secs == dt.secs(),
        secs == civil_days(dt.year as int, dt.month as int, dt.day as int) * 86400 + dt.hour * 3600
            + dt.minute * 60 + dt.second,
{
    days_from_civil(dt.year as i64, dt.month as u32, dt.day as u32) * SECS_PER_DAY
        + dt.hour as i64 * 3600 + dt.minute as i64 * 60 + dt.second as i64
}

/// The count is the calendar's: 1970-01-01 is day 0, and each date is counted
/// one after the date before it, over month ends, leap days, year ends and
/// centuries.
pub proof fn law_count_follows_calendar(y: int, m: int, d: int)
    requires
        valid_date(y, m, d),
    ensures
        civil_days(1970, 1, 1) == 0,
        ({
            let n = next_date(y, m, d);
            valid_date(n.0, n.1, n.2) && civil_days(n.0, n.1, n.2) == civil_days(y, m, d) + 1
        }),
{
    lemma_month_length(y, m);
}

/// Of two dates of the calendar the earlier one has the smaller count; so no
/// two dates share one.
pub proof fn law_dates_count_in_order(a: (int, int, int), b: (int, int, int))
    requires
        valid_date(a.0, a.1, a.2),
        valid_date(b.0, b.1, b.2),
        date_before(a, b),
    ensures
        civil_days(a.0, a.1, a.2) < civil_days(b.0, b.1, b.2),
{
    if (a.0, a.1) != (b.0, b.1) {
        lemma_months_in_order(a.0, a.1, b.0, b.1);
    }
}

/// Of two moments of the calendar the earlier one has the smaller number of
/// seconds.
pub proof fn law_moments_count_in_order(a: CivilDateTime, b: CivilDateTime)
    requires
        a.valid(),
        b.valid(),
        a.earlier_than(b),
    ensures
        a.secs() < b.secs(),
{
    let da = (a.year as int, a.month as int, a.day as int);
    let db = (b.year as int, b.month as int, b.day as int);
    if date_before(da, db) {
        law_dates_count_in_order(da, db);
    }
}

/// The first day of the following month comes `days_in_month` days later.
proof fn lemma_month_length(y: int, m: int)
    requires
        1 <= m <= 12,
    ensures
        m < 12 ==> civil_days(y, m + 1, 1) == civil_days(y, m, 1) + days_in_month(y, m),
        m == 12 ==> civil_days(y + 1, 1, 1) == civil_days(y, m, 1) + days_in_month(y, m),
{
    lemma_leap_day(y);
    if m == 2 {
        assert(is_leap_year(y) <==> first_of_march(y) - first_of_march(y - 1) == 366);
    }
}

/// The years that begin in March are a day longer where they end in February of
/// a leap year.
proof fn lemma_leap_day(y: int)
    ensures
        first_of_march(y) - first_of_march(y - 1) == if is_leap_year(y) {
            366int
        } else {
            365
        },
{
    assert(y / 4 - (y - 1) / 4 == if y % 4 == 0 { 1int } else { 0 });
    assert(y / 100 - (y - 1) / 100 == if y % 100 == 0 { 1int } else { 0 });
    assert(y / 400 - (y - 1) / 400 == if y % 400 == 0 { 1int } else { 0 });
}

/// A later month begins no earlier than the end of an earlier one.
proof fn lemma_months_in_order(y1: int, m1: int, y2: int, m2: int)
    requires
        1 <= m1 <= 12,
        1 <= m2 <= 12,
        y1 < y2 || (y1 == y2 && m1 < m2),
    ensures
        civil_days(y2, m2, 1) >= civil_days(y1, m1, 1) + days_in_month(y1, m1),
    decreases (y2 - y1) * 12 + m2 - m1,
{
    let (y, m) = if m2 > 1 { (y2, m2 - 1) } else { (y2 - 1, 12int) };
    lemma_month_length(y, m);
    if (y, m) != (y1, m1) {
        lemma_months_in_order(y1, m1, y, m);
    }
}

/// A year has 365 days. It has 366 if four divides it, but of the years that a
/// hundred divides only if four hundred does.
pub proof fn law_years_have_their_lengths(y: int)
    ensures
        civil_days(y + 1, 1, 1) - civil_days(y, 1, 1) == if y % 400 == 0 || (y % 4 == 0 && y % 100
            != 0) {
            366int
        } else {
            365
        },
{
    lemma_leap_day(y);
    assert(y % 400 == 0 ==> y % 4 == 0 && y % 100 == 0);
}

/// Thirty days have September, April, June and November. All the rest have
/// thirty-one, excepting February, which has what is left of the year.
pub proof fn law_months_have_their_lengths(y: int, m: int)
    requires
        1 <= m < 12,
    ensures
        m == 4 || m == 6 || m == 9 || m == 11 ==> civil_days(y, m + 1, 1) == civil_days(y, m, 1)
            + 30,
        m == 1 || m == 3 || m == 5 || m == 7 || m == 8 || m == 10 ==> civil_days(y, m + 1, 1)
            == civil_days(y, m, 1) + 31,
        civil_days(y + 1, 1, 1) == civil_days(y, 12, 1) + 31,
{
    lemma_month_length(y, m);
    lemma_month_length(y, 12);
}

/// Days are counted on from any day of a month, on the calendar or off it.
pub proof fn law_days_run_on(y: int, m: int, d: int, more: int)
    ensures
        civil_days(y, m, d + more) == civil_days(y, m, d) + more,
{
}

/// The calendar repeats itself every four centuries, which have 146097 days.
pub proof fn law_four_centuries_repeat(y: int, m: int, d: int)
    ensures
        civil_days(y + 400, m, d) == civil_days(y, m, d) + 146097,
{
}

/// Months off the calendar: the month before January is the December before,
/// two months follow December into the next year, and from March on a month
/// stands for the one that is a dozen later too.
pub proof fn law_months_off_the_calendar(y: int, m: int, d: int)
    requires
        m >= 3,
    ensures
        civil_days(y, 0, d) == civil_days(y - 1, 12, d),
        civil_days(y, 13, d) == civil_days(y + 1, 1, d),
        civil_days(y, 14, d) == civil_days(y + 1, 2, d),
        civil_days(y, m + 12, d) == civil_days(y, m, d),
{
}

/// An hour has 3600 seconds, a minute 60, and a day 86400: so far apart are
/// moments that differ in one of these numbers. The first moment of 1970 is 0.
pub proof fn law_clocks_count_seconds(a: CivilDateTime, b: CivilDateTime)
    ensures
        a.secs() - b.secs() == (civil_days(a.year as int, a.month as int, a.day as int)
            - civil_days(b.year as int, b.month as int, b.day as int)) * 86400 + (a.hour - b.hour)
            * 3600 + (a.minute - b.minute) * 60 + (a.second - b.second),
        a.year == 1970 && a.month == 1 && a.day == 1 && a.hour == 0 && a.minute == 0 && a.second
            == 0 ==> a.secs() == 0,
{
}

} // verus!
