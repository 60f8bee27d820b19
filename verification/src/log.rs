//! Lines of the audit log.

use vstd::prelude::*;

use crate::text;

verus! {

broadcast use vstd::string::group_string_axioms;

/// A moment of the calendar, in universal time.
#[derive(Clone, Copy, Debug, PartialEq, Eq, Structural)]
pub struct LogTime {
    pub year: u32,
    pub month: u32,
    pub day: u32,
    pub hour: u32,
    pub minute: u32,
    pub second: u32,
    pub microsecond: u32,
}

/// A number with zeros in front up to a width.
pub open spec fn padded(n: u32, width: nat) -> Seq<char> {
    text::zero_padded(text::decimal(n as nat), width)
}

/// The stamp of a moment.
pub open spec fn stamp(time: LogTime) -> Seq<char> {
    padded(time.year, 4) + "-"@ + padded(time.month, 2) + "-"@ + padded(time.day, 2) + "T"@ + padded(
        time.hour,
        2,
    ) + ":"@ + padded(time.minute, 2) + ":"@ + padded(time.second, 2) + "."@ + padded(
        time.microsecond,
        6,
    ) + "Z"@
}

/// The line about an event.
pub open spec fn log_line(time: LogTime, id: u64, body: Seq<char>) -> Seq<char> {
    "["@ + stamp(time) + "] id="@ + text::decimal(id as nat) + " "@ + body
}

fn padded_of(n: u32, width: usize) -> (shown: String)
    ensures
        shown@ == padded(n, width as nat),
{
    text::zero_padded_of(text::decimal_of(n as u64), width)
}

fn stamp_of(time: LogTime) -> (shown: String)
    ensures
        shown@ == stamp(time),
{
    let mut shown = padded_of(time.year, 4);
    shown.append("-");
    shown.append(padded_of(time.month, 2).as_str());
    shown.append("-");
    shown.append(padded_of(time.day, 2).as_str());
    shown.append("T");
    shown.append(padded_of(time.hour, 2).as_str());
    shown.append(":");
    shown.append(padded_of(time.minute, 2).as_str());
    shown.append(":");
    shown.append(padded_of(time.second, 2).as_str());
    shown.append(".");
    shown.append(padded_of(time.microsecond, 6).as_str());
    shown.append("Z");
    shown
}

/// The line about an event.
pub fn format_log_line(time: LogTime, id: u64, body: &str) -> (line: String)
    ensures
        line@ == log_line(time, id, body@),
{
    let mut line = "[".to_owned();
    line.append(stamp_of(time).as_str());
    line.append("] id=");
    line.append(text::decimal_of(id).as_str());
    line.append(" ");
    line.append(body);
    line
}

} // verus!
