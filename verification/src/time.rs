//! Points in time and spans between them, as plain integers.

use vstd::prelude::*;

verus! {

/// How long the kernel may keep an entry or attributes, in seconds.
pub const TTL: u64 = 1;

const NANOS_PER_SEC: u64 = 1_000_000_000;

/// A point in time: seconds since the Unix epoch, negative before it, and the
/// nanoseconds after that second.
#[derive(Clone, Copy, Debug, PartialEq, Eq, Structural)]
pub struct Timestamp {
    pub secs: i64,
    pub nanos: u32,
}

/// A span of time.
#[derive(Clone, Copy, Debug, PartialEq, Eq, Structural)]
pub struct TimeSpan {
    pub secs: u64,
    pub nanos: u32,
}

impl TimeSpan {
    /// A span of whole seconds.
    pub fn from_secs(secs: u64) -> (span: Self)
        ensures
            span == (TimeSpan { secs, nanos: 0 }),
    {
        TimeSpan { secs, nanos: 0 }
    }
}

/// Whole milliseconds since the epoch; zero for earlier times.
pub open spec fn millis_since_epoch(secs: int, nanos: int) -> int {
    if secs < 0 {
        0
    } else {
        secs * 1000 + nanos / 1_000_000
    }
}

/// The seconds and nanoseconds of a time after a span.
pub open spec fn after(now: Timestamp, span: TimeSpan) -> (int, int) {
    let nanos = now.nanos + span.nanos;
    (now.secs + span.secs + nanos / 1_000_000_000, nanos % 1_000_000_000)
}

/// When a span that starts now ends, in milliseconds since the epoch. An end
/// that no timestamp can hold lies as far ahead as the number allows.
pub open spec fn expiry(now: Timestamp, span: TimeSpan) -> int {
    let (secs, nanos) = after(now, span);
    if secs > i64::MAX {
        u128::MAX as int
    } else {
        millis_since_epoch(secs, nanos)
    }
}

/// Whole milliseconds since the epoch; zero for earlier times.
pub fn epoch_millis(time: Timestamp) -> (millis: u128)
    ensures
        millis == millis_since_epoch(time.secs as int, time.nanos as int),
{
    if time.secs < 0 {
        0
    } else {
        time.secs as u128 * 1000 + (time.nanos / 1_000_000) as u128
    }
}

/// When a span that starts now ends, in milliseconds since the epoch.
pub fn duration_expires_at(now: Timestamp, duration: TimeSpan) -> (millis: u128)
    ensures
        millis == expiry(now, duration),
{
    let nanos: u64 = now.nanos as u64 + duration.nanos as u64;
    let secs: i128 = now.secs as i128 + duration.secs as i128 + (nanos / NANOS_PER_SEC) as i128;
    if secs > i64::MAX as i128 {
        u128::MAX
    } else {
        epoch_millis(Timestamp { secs: secs as i64, nanos: (nanos % NANOS_PER_SEC) as u32 })
    }
}

/// A span of at least a millisecond that starts now has not ended yet, where it
/// ends a millisecond after the epoch or later.
pub proof fn lemma_expiry_lies_ahead(now: Timestamp, span: TimeSpan)
    requires
        now.nanos < 1_000_000_000,
        span.secs >= 1 || span.nanos >= 1_000_000,
        expiry(now, span) >= 1,
    ensures
        millis_since_epoch(now.secs as int, now.nanos as int) < expiry(now, span),
{
}

} // verus!
