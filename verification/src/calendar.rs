//! Wall-clock dates and times as plain integers, in the proleptic Gregorian
//! calendar and without any time zone, and the few calendar computations that
//! the scheduler asks of `chrono`.
//!
//! A `Date` is its day number counted from January 1 of year 1 (day 1), a
//! `Time` is its seconds since midnight plus a nanosecond fraction (which is
//! `>= 1_000_000_000` only while a leap second is shown), exactly the numbers
//! `chrono` itself keeps for `NaiveDate` and `NaiveTime`.
use chrono::{Datelike, NaiveDate, NaiveDateTime, NaiveTime, TimeDelta, Timelike};
use vstd::prelude::*;

verus! {

/// Day number of `NaiveDate::MIN` (January 1, 262143 BCE).
pub const MIN_DAYS_FROM_CE: i32 = -95746129i32;

/// Day number of `NaiveDate::MAX` (December 31, 262142 CE).
pub const MAX_DAYS_FROM_CE: i32 = 95745399i32;

pub const SECS_PER_DAY: u32 = 86400u32;

pub const NANOS_PER_SEC: u32 = 1_000_000_000u32;

/// The largest number of whole seconds a `chrono::TimeDelta` can hold.
pub const MAX_DELTA_SECS: i64 = 9_223_372_036_854_775i64;

/// A day of the week.
#[derive(Clone, Copy, Debug, PartialEq, Eq, Structural, Hash)]
pub enum Weekday {
    Mon,
    Tue,
    Wed,
    Thu,
    Fri,
    Sat,
    Sun,
}

/// A calendar date.
#[derive(Clone, Copy, Debug, PartialEq, Eq, Structural, Hash)]
pub struct Date {
    pub days_from_ce: i32,
}

/// A time of day.
#[derive(Clone, Copy, Debug, PartialEq, Eq, Structural, Hash)]
pub struct Time {
    pub secs: u32,
    pub frac: u32,
}

/// A date together with a time of day.
#[derive(Clone, Copy, Debug, PartialEq, Eq, Structural, Hash)]
pub struct DateTime {
    pub date: Date,
    pub time: Time,
}

impl Date {
    /// The date lies in the range that `chrono` can represent.
    pub open spec fn wf(self) -> bool {
        MIN_DAYS_FROM_CE <= self.days_from_ce <= MAX_DAYS_FROM_CE
    }
}

impl Time {
    /// The same validity rule as `NaiveTime::from_num_seconds_from_midnight_opt`.
    pub open spec fn wf(self) -> bool {
        &&& self.secs < SECS_PER_DAY
        &&& self.frac < 2 * NANOS_PER_SEC
        &&& self.frac >= NANOS_PER_SEC ==> self.secs % 60 == 59
    }

    /// Builds a time of day from hours, minutes and seconds.
    pub fn from_hms(hour: u32, min: u32, sec: u32) -> (t: Time)
        requires
            hour < 24,
            min < 60,
            sec < 60,
        ensures
            t.wf(),
            t.secs == hour * 3600 + min * 60 + sec,
            t.frac == 0,
    {
        Time { secs: hour * 3600 + min * 60 + sec, frac: 0 }
    }
}

impl DateTime {
    pub open spec fn wf(self) -> bool {
        self.date.wf() && self.time.wf()
    }

    /// Joins a date and a time of day (`NaiveDate::and_time`).
    pub fn at(date: Date, time: Time) -> (dt: DateTime)
        ensures
            dt.date == date,
            dt.time == time,
    {
        DateTime { date, time }
    }
}

/// The weekday of a day number: day 1, January 1 of year 1, is a Monday.
pub open spec fn spec_weekday(days_from_ce: int) -> Weekday {
    let r = (days_from_ce - 1) % 7;
    if r == 0 {
        Weekday::Mon
    } else if r == 1 {
        Weekday::Tue
    } else if r == 2 {
        Weekday::Wed
    } else if r == 3 {
        Weekday::Thu
    } else if r == 4 {
        Weekday::Fri
    } else if r == 5 {
        Weekday::Sat
    } else {
        Weekday::Sun
    }
}

/// `a` is strictly earlier than `b`: the order of `chrono`'s `NaiveDateTime`,
/// by date, then seconds of the day, then fraction.
pub open spec fn dt_lt(a: DateTime, b: DateTime) -> bool {
    ||| a.date.days_from_ce < b.date.days_from_ce
    ||| (a.date.days_from_ce == b.date.days_from_ce && a.time.secs < b.time.secs)
    ||| (a.date.days_from_ce == b.date.days_from_ce && a.time.secs == b.time.secs && a.time.frac
        < b.time.frac)
}

pub open spec fn dt_le(a: DateTime, b: DateTime) -> bool {
    dt_lt(a, b) || a == b
}

/// Whether `minutes` can be turned into a `TimeDelta` (`TimeDelta::try_minutes`).
pub open spec fn minutes_in_range(minutes: int) -> bool {
    -MAX_DELTA_SECS <= 60 * minutes <= MAX_DELTA_SECS
}

/// `dt + TimeDelta::minutes(minutes)` as `NaiveDateTime::checked_add_signed`
/// computes it: a leap second is first left (forwards when adding, backwards
/// when subtracting), then the seconds are added and carried into the date.
/// `None` where the minutes or the resulting date are out of range.
pub open spec fn spec_add_minutes(dt: DateTime, minutes: int) -> Option<DateTime> {
    if !minutes_in_range(minutes) {
        None
    } else {
        let leaping = dt.time.frac >= NANOS_PER_SEC && minutes != 0;
        let secs: int = if leaping && minutes < 0 {
            dt.time.secs + 1
        } else {
            dt.time.secs as int
        };
        let frac: int = if leaping {
            dt.time.frac - NANOS_PER_SEC
        } else {
            dt.time.frac as int
        };
        let total = secs + 60 * minutes;
        let day = dt.date.days_from_ce + total / (SECS_PER_DAY as int);
        if MIN_DAYS_FROM_CE <= day <= MAX_DAYS_FROM_CE {
            Some(
                DateTime {
                    date: Date { days_from_ce: day as i32 },
                    time: Time { secs: (total % (SECS_PER_DAY as int)) as u32, frac: frac as u32 },
                },
            )
        } else {
            None
        }
    }
}

/// `date + TimeDelta::days(days)`, `None` where out of range.
pub open spec fn spec_add_days(date: Date, days: int) -> Option<Date> {
    let day = date.days_from_ce + days;
    if -MAX_DELTA_SECS <= days * SECS_PER_DAY <= MAX_DELTA_SECS && MIN_DAYS_FROM_CE <= day
        <= MAX_DAYS_FROM_CE {
        Some(Date { days_from_ce: day as i32 })
    } else {
        None
    }
}

/// Integer division rounding towards zero, as Rust's `/` does.
pub open spec fn trunc_div(n: int, d: int) -> int
    recommends
        d > 0,
{
    if n >= 0 {
        n / d
    } else {
        -((-n) / d)
    }
}

/// `(later - earlier).num_minutes()`: the signed span in nanoseconds, a leap
/// second counted once where one of the two ends sits in it, truncated to
/// whole minutes towards zero.
pub open spec fn spec_minutes_between(later: DateTime, earlier: DateTime) -> int {
    let adjust: int = if later.time.secs > earlier.time.secs && earlier.time.frac
        >= NANOS_PER_SEC {
        1
    } else if later.time.secs < earlier.time.secs && later.time.frac >= NANOS_PER_SEC {
        -1
    } else {
        0
    };
    let nanos = (later.date.days_from_ce - earlier.date.days_from_ce) * (SECS_PER_DAY as int) * (
    NANOS_PER_SEC as int) + (later.time.secs - earlier.time.secs + adjust) * (NANOS_PER_SEC as int)
        + (later.time.frac - earlier.time.frac);
    trunc_div(nanos, 60 * (NANOS_PER_SEC as int))
}

/// `chrono`'s `Datelike::weekday` on the date with this day number.
/// Claims that the result follows the seven-day cycle of the proleptic
/// Gregorian calendar, in which January 1 of year 1 was a Monday.
#[verifier::external_body]
pub fn weekday_of(date: Date) -> (w: Weekday)
    requires
        date.wf(),
    ensures
        w == spec_weekday(date.days_from_ce as int),
{
    match NaiveDate::from_num_days_from_ce_opt(date.days_from_ce).unwrap().weekday() {
        chrono::Weekday::Mon => Weekday::Mon,
        chrono::Weekday::Tue => Weekday::Tue,
        chrono::Weekday::Wed => Weekday::Wed,
        chrono::Weekday::Thu => Weekday::Thu,
        chrono::Weekday::Fri => Weekday::Fri,
        chrono::Weekday::Sat => Weekday::Sat,
        chrono::Weekday::Sun => Weekday::Sun,
    }
}

/// `NaiveDateTime::checked_add_signed` with `TimeDelta::try_minutes(minutes)`.
/// Claims the result that `chrono`'s source computes, written out in
/// `spec_add_minutes`.
#[verifier::external_body]
pub fn add_minutes(dt: DateTime, minutes: i64) -> (r: Option<DateTime>)
    requires
        dt.wf(),
    ensures
        r == spec_add_minutes(dt, minutes as int),
{
    let d = NaiveDate::from_num_days_from_ce_opt(dt.date.days_from_ce)?;
    let t = NaiveTime::from_num_seconds_from_midnight_opt(dt.time.secs, dt.time.frac)?;
    let s = NaiveDateTime::new(d, t).checked_add_signed(TimeDelta::try_minutes(minutes)?)?;
    let (d, t) = (s.date().num_days_from_ce(), s.time());
    Some(
        DateTime {
            date: Date { days_from_ce: d },
            time: Time { secs: t.num_seconds_from_midnight(), frac: t.nanosecond() },
        },
    )
}

/// `NaiveDate::checked_add_signed` with `TimeDelta::try_days(days)`.
/// Claims that the day number moves by `days`, and `None` exactly where that
/// leaves `chrono`'s range.
#[verifier::external_body]
pub fn add_days(date: Date, days: i64) -> (r: Option<Date>)
    requires
        date.wf(),
    ensures
        r == spec_add_days(date, days as int),
{
    let d = NaiveDate::from_num_days_from_ce_opt(date.days_from_ce)?;
    let s = d.checked_add_signed(TimeDelta::try_days(days)?)?;
    Some(Date { days_from_ce: s.num_days_from_ce() })
}

/// `(later - earlier).num_minutes()` on `NaiveDateTime`s, that is
/// `signed_duration_since` followed by `TimeDelta::num_minutes`.
/// Claims the value that `chrono`'s source computes, written out in
/// `spec_minutes_between`.
#[verifier::external_body]
pub fn minutes_between(later: DateTime, earlier: DateTime) -> (m: i64)
    requires
        later.wf(),
        earlier.wf(),
    ensures
        m == spec_minutes_between(later, earlier),
{
    let d1 = NaiveDate::from_num_days_from_ce_opt(later.date.days_from_ce).unwrap();
    let t1 = NaiveTime::from_num_seconds_from_midnight_opt(later.time.secs, later.time.frac);
    let d2 = NaiveDate::from_num_days_from_ce_opt(earlier.date.days_from_ce).unwrap();
    let t2 = NaiveTime::from_num_seconds_from_midnight_opt(earlier.time.secs, earlier.time.frac);
    (d1.and_time(t1.unwrap()) - d2.and_time(t2.unwrap())).num_minutes()
}

/// Whether `a` is strictly earlier than `b`.
pub fn is_before(a: &DateTime, b: &DateTime) -> (r: bool)
    ensures
        r == dt_lt(*a, *b),
{
    if a.date.days_from_ce != b.date.days_from_ce {
        a.date.days_from_ce < b.date.days_from_ce
    } else if a.time.secs != b.time.secs {
        a.time.secs < b.time.secs
    } else {
        a.time.frac < b.time.frac
    }
}

} // verus!
