//! Calendar date-times: validity in the proleptic Gregorian calendar and the
//! number of seconds since 1970-01-01T00:00:00.
use vstd::prelude::*;

verus! {

/// Earliest year that a date can carry.
pub const MIN_YEAR: i32 = -262143;

/// Latest year that a date can carry.
pub const MAX_YEAR: i32 = 262142;

/// Days from 0001-01-01 to 1970-01-01.
pub const DAYS_TO_UNIX_EPOCH: i64 = 719162;

pub open spec fn is_leap_year(y: int) -> bool {
    (y % 4 == 0 && y % 100 != 0) || y % 400 == 0
}

pub open spec fn days_in_month(y: int, m: int) -> int {
    if m == 2 {
        if is_leap_year(y) { 29 } else { 28 }
    } else if m == 4 || m == 6 || m == 9 || m == 11 {
        30
    } else {
        31
    }
}

/// Days of the year `y` that come before the first day of month `m`.
pub open spec fn days_before_month(y: int, m: int) -> int
    decreases m,
{
    if m <= 1 {
        0
    } else {
        days_before_month(y, m - 1) + days_in_month(y, m - 1)
    }
}

pub open spec fn valid_date(y: int, m: int, d: int) -> bool {
    &&& MIN_YEAR <= y <= MAX_YEAR
    &&& 1 <= m <= 12
    &&& 1 <= d <= days_in_month(y, m)
}

pub open spec fn valid_datetime(y: int, m: int, d: int, h: int, mi: int, s: int) -> bool {
    &&& valid_date(y, m, d)
    &&& 0 <= h < 24
    &&& 0 <= mi < 60
    &&& 0 <= s < 60
}

/// Days from 1970-01-01 to the given date (negative before it).
pub open spec fn days_from_epoch(y: int, m: int, d: int) -> int {
    let p = y - 1;
    365 * p + p / 4 - p / 100 + p / 400 + days_before_month(y, m) + d - 1 - DAYS_TO_UNIX_EPOCH
}

pub open spec fn seconds_from_epoch(y: int, m: int, d: int, h: int, mi: int, s: int) -> int {
    days_from_epoch(y, m, d) * 86400 + h * 3600 + mi * 60 + s
}

/// A calendar date and time of day, to the second, in no particular time zone.
#[derive(Clone, Copy, Debug, PartialEq, Eq, Structural)]
pub struct DateTime {
    pub year: i32,
    pub month: u32,
    pub day: u32,
    pub hour: u32,
    pub minute: u32,
    pub second: u32,
}

impl DateTime {
    pub open spec fn valid(&self) -> bool {
        valid_datetime(
            self.year as int,
            self.month as int,
            self.day as int,
            self.hour as int,
            self.minute as int,
            self.second as int,
        )
    }

    pub open spec fn spec_epoch_seconds(&self) -> int {
        seconds_from_epoch(
            self.year as int,
            self.month as int,
            self.day as int,
            self.hour as int,
            self.minute as int,
            self.second as int,
        )
    }

    /// Seconds since 1970-01-01T00:00:00, or `None` where the fields name no
    /// date and time of the calendar.
    pub fn epoch_seconds(&self) -> (r: Option<i64>)
        ensures
            r.is_some() <==> self.valid(),
            r.is_some() ==> r.unwrap() == self.spec_epoch_seconds(),
    {
        chrono_epoch_seconds(self.year, self.month, self.day, self.hour, self.minute, self.second)
    }
}

/// Relies on chrono's `NaiveDate::from_ymd_opt` and `NaiveDate::and_hms_opt`, which
/// accept exactly the valid dates of the proleptic Gregorian calendar between
/// `MIN_YEAR` and `MAX_YEAR` and the times with hour < 24, minute < 60 and
/// second < 60, and on `NaiveDateTime::and_utc().timestamp()`, the seconds since
/// 1970-01-01T00:00:00.
#[verifier::external_body]
fn chrono_epoch_seconds(year: i32, month: u32, day: u32, hour: u32, minute: u32, second: u32) -> (r:
    Option<i64>)
    ensures
        r.is_some() <==> valid_datetime(
            year as int,
            month as int,
            day as int,
            hour as int,
            minute as int,
            second as int,
        ),
        r.is_some() ==> r.unwrap() == seconds_from_epoch(
            year as int,
            month as int,
            day as int,
            hour as int,
            minute as int,
            second as int,
        ),
{
    match chrono::NaiveDate::from_ymd_opt(year, month, day) {
        Some(date) => match date.and_hms_opt(hour, minute, second) {
            Some(t) => Some(t.and_utc().timestamp()),
            None => None,
        },
        None => None,
    }
}

} // verus!
