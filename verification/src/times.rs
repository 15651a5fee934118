//! Timestamps: a calendar date with a time of day and a fixed UTC offset.
//!
//! The mathematical model of a timestamp is `spec_total_nanos`: the number
//! of nanoseconds between the UTC instant it denotes and the UTC midnight
//! that opens day 0 of the calendar. Whole-day distances between two
//! timestamps are specified as truncating division on that model.
use crate::dates::Date;
use vstd::prelude::*;

verus! {

/// A wall-clock timestamp: a date, a time of day with nanosecond
/// precision, and the local offset from UTC in whole minutes.
#[derive(Clone, Copy, Debug, PartialEq, Eq, Structural)]
pub struct Timestamp {
    pub date: Date,
    pub hour: u8,
    pub minute: u8,
    pub second: u8,
    pub nanosecond: u32,
    pub offset_minutes: i16,
}

/// Integer division truncating towards zero (the remainder carries the
/// sign of the dividend).
pub open spec fn spec_trunc_div(a: int, b: int) -> int {
    if a >= 0 {
        a / b
    } else {
        -((-a) / b)
    }
}

impl Timestamp {
    pub open spec fn valid(self) -> bool {
        &&& self.date.valid()
        &&& self.hour < 24
        &&& self.minute < 60
        &&& self.second < 60
        &&& self.nanosecond < 1_000_000_000
        &&& -1440 < self.offset_minutes < 1440
    }

    /// The second, within UTC time, at which this timestamp lies: seconds
    /// from the UTC midnight opening day 0 of the calendar.
    pub open spec fn spec_utc_seconds(self) -> int {
        self.date.spec_day_number() * 86400 + self.hour * 3600 + self.minute * 60 + self.second
            - self.offset_minutes * 60
    }

    /// The instant this timestamp denotes, in nanoseconds from the UTC
    /// midnight opening day 0 of the calendar.
    pub open spec fn spec_total_nanos(self) -> int {
        self.spec_utc_seconds() * 1_000_000_000 + self.nanosecond
    }
}

/// The number of whole days from `b` to `a` (negative when `a` lies
/// before `b`), truncating partial days towards zero.
pub open spec fn spec_days_between(a: Timestamp, b: Timestamp) -> int {
    spec_trunc_div(a.spec_total_nanos() - b.spec_total_nanos(), 86_400_000_000_000)
}

/// The number of whole days from `b` to `a`, truncating towards zero.
pub fn days_between(a: &Timestamp, b: &Timestamp) -> (r: i64)
    requires
        a.valid(),
        b.valid(),
    ensures
        r == spec_days_between(*a, *b),
{
    let ta = total_nanos(a);
    let tb = total_nanos(b);
    let diff: i128 = ta - tb;
    if diff >= 0 {
        let q: u128 = (diff as u128) / 86_400_000_000_000;
        q as i64
    } else {
        let q: u128 = ((-diff) as u128) / 86_400_000_000_000;
        -(q as i64)
    }
}

/// The instant of a timestamp in nanoseconds, as an ordinary integer.
fn total_nanos(t: &Timestamp) -> (r: i128)
    requires
        t.valid(),
    ensures
        r == t.spec_total_nanos(),
        -400_000_000_000_000_000_000 < r < 400_000_000_000_000_000_000,
{
    proof {
        crate::dates::lemma_day_number_in_range(t.date);
        crate::dates::lemma_max_day_number_value();
    }
    let dn = crate::dates::day_number(&t.date) as i64;
    let secs: i64 = dn * 86400 + (t.hour as i64) * 3600 + (t.minute as i64) * 60 + (t.second
        as i64) - (t.offset_minutes as i64) * 60;
    (secs as i128) * 1_000_000_000 + (t.nanosecond as i128)
}

} // verus!
