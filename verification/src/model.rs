//! The value objects of a timecard: day markers, clock times, worked
//! intervals, and the entry union the parser hands to the accumulator.

use vstd::prelude::*;
use vstd::string::StringExecFns;
use crate::numfmt::{decimal, push_decimal};

verus! {

/// Message rejecting a date whose month or day is out of range.
pub open spec fn invalid_date_msg(month: nat, day: nat) -> Seq<char> {
    "invalid date \""@ + decimal(month) + "/"@ + decimal(day) + "\""@
}

/// Message rejecting a clock time whose hour or minute is out of range.
pub open spec fn invalid_time_msg(hours: nat, minutes: nat) -> Seq<char> {
    "invalid time \""@ + decimal(hours) + ":"@ + decimal(minutes) + "\""@
}

fn invalid_date_message(month: u32, day: u32) -> (r: String)
    ensures
        r@ == invalid_date_msg(month as nat, day as nat),
{
    let mut r = String::from_str("invalid date \"");
    push_decimal(&mut r, month as u128);
    r.append("/");
    push_decimal(&mut r, day as u128);
    r.append("\"");
    proof {
        assert(r@ =~= invalid_date_msg(month as nat, day as nat));
    }
    r
}

fn invalid_time_message(hours: u32, minutes: u32) -> (r: String)
    ensures
        r@ == invalid_time_msg(hours as nat, minutes as nat),
{
    let mut r = String::from_str("invalid time \"");
    push_decimal(&mut r, hours as u128);
    r.append(":");
    push_decimal(&mut r, minutes as u128);
    r.append("\"");
    proof {
        assert(r@ =~= invalid_time_msg(hours as nat, minutes as nat));
    }
    r
}

/// A day marker on the timecard.  Dates are not checked against real month
/// lengths: every month accepts days 1 through 31, and there is no year.
#[derive(Clone, Copy, Debug, PartialEq, Eq, Structural)]
pub struct Date {
    pub month: u32,
    pub day: u32,
}

impl Date {
    /// Both fields in their stated ranges.
    pub open spec fn wf(self) -> bool {
        1 <= self.month <= 12 && 1 <= self.day <= 31
    }

    /// Builds a date, rejecting a month outside 1..=12 or a day outside
    /// 1..=31 with a message naming both values.
    pub fn new(month: u32, day: u32) -> (r: Result<Date, String>)
        ensures
            (1 <= month <= 12 && 1 <= day <= 31) <==> r is Ok,
            r matches Ok(d) ==> d == (Date { month, day }),
            r matches Err(m) ==> m@ == invalid_date_msg(month as nat, day as nat),
    {
        if 1 <= month && month <= 12 && 1 <= day && day <= 31 {
            Ok(Date { month, day })
        } else {
            Err(invalid_date_message(month, day))
        }
    }

    /// The date as "month/day".
    pub fn to_s(&self) -> (r: String)
        ensures
            r@ == decimal(self.month as nat) + "/"@ + decimal(self.day as nat),
    {
        let mut r = String::new();
        push_decimal(&mut r, self.month as u128);
        r.append("/");
        push_decimal(&mut r, self.day as u128);
        proof {
            assert(r@ =~= decimal(self.month as nat) + "/"@ + decimal(self.day as nat));
        }
        r
    }
}

/// A 12-hour-clock timestamp with no morning/afternoon distinction.
#[derive(Clone, Copy, Debug, PartialEq, Eq, Structural)]
pub struct Time {
    pub hours: u32,
    pub minutes: u32,
}

impl Time {
    /// Hours in 1..=12, minutes in 0..=59.
    pub open spec fn wf(self) -> bool {
        1 <= self.hours <= 12 && self.minutes <= 59
    }

    /// Offset from the bottom of the 12-hour cycle: hour 12 sits at the
    /// bottom (0..=59 minutes in), every other hour at `hours * 60`.
    pub open spec fn spec_in_minutes(self) -> int {
        if self.hours == 12 {
            self.minutes as int
        } else {
            self.hours * 60 + self.minutes
        }
    }

    /// Builds a time, rejecting an hour outside 1..=12 or a minute outside
    /// 0..=59 with a message naming both values.
    pub fn new(hours: u32, minutes: u32) -> (r: Result<Time, String>)
        ensures
            (1 <= hours <= 12 && minutes <= 59) <==> r is Ok,
            r matches Ok(t) ==> t == (Time { hours, minutes }),
            r matches Err(m) ==> m@ == invalid_time_msg(hours as nat, minutes as nat),
    {
        if 1 <= hours && hours <= 12 && minutes <= 59 {
            Ok(Time { hours, minutes })
        } else {
            Err(invalid_time_message(hours, minutes))
        }
    }

    /// Minutes into the 12-hour cycle; at most 719 for a valid time.
    pub fn in_minutes(&self) -> (r: u32)
        requires
            self.wf(),
        ensures
            r == self.spec_in_minutes(),
            r <= 719,
    {
        if self.hours == 12 {
            self.minutes
        } else {
            self.hours * 60 + self.minutes
        }
    }
}

/// One worked interval: a start and an end time on the same line.
#[derive(Clone, Copy, Debug, PartialEq, Eq, Structural)]
pub struct TimeRange {
    pub start: Time,
    pub end: Time,
}

impl TimeRange {
    /// Both endpoints valid times.
    pub open spec fn wf(self) -> bool {
        self.start.wf() && self.end.wf()
    }

    /// Elapsed minutes on the 12-hour cycle: a plain difference when the
    /// end offset is larger, a wrap over the 720-minute cycle when it is
    /// smaller, and zero when the offsets are equal.
    pub open spec fn spec_minutes(self) -> int {
        let s = self.start.spec_in_minutes();
        let e = self.end.spec_in_minutes();
        if s < e {
            e - s
        } else if s > e {
            720 - s + e
        } else {
            0
        }
    }

    /// Builds a range from the four raw values; a bad start endpoint is
    /// reported before a bad end endpoint.
    pub fn new(start_hr: u32, start_min: u32, end_hr: u32, end_min: u32) -> (r: Result<
        TimeRange,
        String,
    >)
        ensures
            (1 <= start_hr <= 12 && start_min <= 59 && 1 <= end_hr <= 12 && end_min <= 59) <==> r
                is Ok,
            r matches Ok(tr) ==> tr == (TimeRange {
                start: Time { hours: start_hr, minutes: start_min },
                end: Time { hours: end_hr, minutes: end_min },
            }) && tr.wf(),
            r matches Err(m) ==> if !(1 <= start_hr <= 12 && start_min <= 59) {
                m@ == invalid_time_msg(start_hr as nat, start_min as nat)
            } else {
                m@ == invalid_time_msg(end_hr as nat, end_min as nat)
            },
    {
        let start = Time::new(start_hr, start_min);
        let end = Time::new(end_hr, end_min);
        match (start, end) {
            (Ok(start), Ok(end)) => Ok(TimeRange { start, end }),
            (Err(e), _) => Err(e),
            (_, Err(e)) => Err(e),
        }
    }

    /// Elapsed minutes of the interval; at most 719 for a valid range.
    pub fn minutes(&self) -> (r: u32)
        requires
            self.wf(),
        ensures
            r == self.spec_minutes(),
            r <= 719,
    {
        let start_min = self.start.in_minutes();
        let end_min = self.end.in_minutes();
        if start_min < end_min {
            end_min - start_min
        } else if start_min > end_min {
            let minutes_before_rollover = 12 * 60 - start_min;
            end_min + minutes_before_rollover
        } else {
            0
        }
    }
}

/// A parsed line: either a day marker or a worked interval, kept in input
/// order between the parser and the accumulator.
#[derive(Clone, Copy, Debug)]
pub enum Entry {
    DateEntry(Date),
    TimeRangeEntry(TimeRange),
}

/// Every time range carried by the entry is a valid one; a date entry
/// carries no obligation the accumulator depends on.
pub open spec fn entry_wf(e: Entry) -> bool {
    match e {
        Entry::DateEntry(_) => true,
        Entry::TimeRangeEntry(tr) => tr.wf(),
    }
}

} // verus!
