//! Reading the system clock. The one outside call is to `chrono`; all
//! interpretation of the reading happens in verified code.
use crate::dates::{spec_days_in_month, Date};
use crate::times::{spec_trunc_div, Timestamp};
use chrono::{Datelike, Timelike};
use vstd::prelude::*;

verus! {

/// The raw fields of one reading of the local system clock.
#[derive(Clone, Copy, Debug, PartialEq, Eq, Structural)]
pub struct ClockReading {
    pub year: i32,
    pub month: u8,
    pub day: u8,
    pub hour: u8,
    pub minute: u8,
    pub second: u8,
    pub nanos: u32,
    pub offset_seconds: i32,
}

/// Relies on `chrono::Local::now` and the `Datelike`/`Timelike` accessors:
/// the reading is a real calendar date (month 1 to 12, day 1 to the month's
/// length) with a time of day (hour below 24, minute and second below 60,
/// nanoseconds below 2,000,000,000, where values of 1,000,000,000 and above
/// represent a leap second) and the local offset from UTC in seconds,
/// strictly between -86400 and 86400. Nothing relates two readings: the
/// clock may move freely between calls.
#[verifier::external_body]
fn read_clock() -> (r: ClockReading)
    ensures
        1 <= r.month <= 12,
        1 <= r.day,
        r.day as int <= spec_days_in_month(r.year as int, r.month as int),
        r.hour < 24,
        r.minute < 60,
        r.second < 60,
        r.nanos < 2_000_000_000,
        -86400 < r.offset_seconds < 86400,
{
    let t = chrono::Local::now();
    ClockReading {
        year: t.year(),
        month: t.month() as u8,
        day: t.day() as u8,
        hour: t.hour() as u8,
        minute: t.minute() as u8,
        second: t.second() as u8,
        nanos: t.nanosecond(),
        offset_seconds: t.offset().local_minus_utc(),
    }
}

impl Timestamp {
    /// Interpret a clock reading as a timestamp: leap-second nanoseconds
    /// are folded into the labelled second, the offset is truncated to
    /// whole minutes, and a reading whose year falls outside the supported
    /// range 1 to 9999 is pinned to the calendar's first day.
    pub fn from_clock(c: &ClockReading) -> (r: Timestamp)
        requires
            1 <= c.month <= 12,
            1 <= c.day,
            c.day as int <= spec_days_in_month(c.year as int, c.month as int),
            c.hour < 24,
            c.minute < 60,
            c.second < 60,
            c.nanos < 2_000_000_000,
            -86400 < c.offset_seconds < 86400,
        ensures
            r.valid(),
            1 <= c.year <= 9999 ==> {
                &&& r.date == (Date { year: c.year as u16, month: c.month, day: c.day })
                &&& r.hour == c.hour
                &&& r.minute == c.minute
                &&& r.second == c.second
                &&& r.nanosecond == if c.nanos >= 1_000_000_000 {
                    c.nanos - 1_000_000_000
                } else {
                    c.nanos as int
                }
                &&& r.offset_minutes == spec_trunc_div(c.offset_seconds as int, 60)
            },
    {
        if c.year < 1 || c.year > 9999 {
            return Timestamp {
                date: Date { year: 1, month: 1, day: 1 },
                hour: 0,
                minute: 0,
                second: 0,
                nanosecond: 0,
                offset_minutes: 0,
            };
        }
        let nanosecond = if c.nanos >= 1_000_000_000 {
            c.nanos - 1_000_000_000
        } else {
            c.nanos
        };
        let offset_minutes = if c.offset_seconds >= 0 {
            ((c.offset_seconds as u32) / 60) as i16
        } else {
            -((((-c.offset_seconds) as u32) / 60) as i16)
        };
        Timestamp {
            date: Date { year: c.year as u16, month: c.month, day: c.day },
            hour: c.hour,
            minute: c.minute,
            second: c.second,
            nanosecond,
            offset_minutes,
        }
    }
}

/// The current local time as a timestamp. The result is a valid timestamp;
/// nothing more is promised of it, since the clock may return anything.
pub fn now_timestamp() -> (r: Timestamp)
    ensures
        r.valid(),
{
    let c = read_clock();
    Timestamp::from_clock(&c)
}

} // verus!
