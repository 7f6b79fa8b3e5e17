//! Points in time.
use vstd::prelude::*;

verus! {

/// A point in time: seconds and nanoseconds after the Unix epoch.
#[derive(Debug, Clone, Copy, PartialEq, Eq, Structural)]
pub struct Timestamp {
    pub secs: i64,
    pub nanos: u32,
}

/// `a` is later than `b`.
pub open spec fn later(a: Timestamp, b: Timestamp) -> bool {
    a.secs > b.secs || (a.secs == b.secs && a.nanos > b.nanos)
}

/// Whether `a` is later than `b`.
pub fn is_later(a: Timestamp, b: Timestamp) -> (r: bool)
    ensures
        r == later(a, b),
{
    a.secs > b.secs || (a.secs == b.secs && a.nanos > b.nanos)
}

/// The point `secs` seconds before `t`, if it can be written.
pub fn seconds_before(t: Timestamp, secs: i64) -> (r: Option<Timestamp>)
    ensures
        r == (if i64::MIN <= t.secs - secs <= i64::MAX {
            Some(Timestamp { secs: (t.secs - secs) as i64, nanos: t.nanos })
        } else {
            None
        }),
{
    match t.secs.checked_sub(secs) {
        Some(s) => Some(Timestamp { secs: s, nanos: t.nanos }),
        None => None,
    }
}

/// The number of seconds of a day.
pub const DAY_SECS: i128 = 86_400;

/// The number of nanoseconds of a second.
pub const SECOND_NANOS: i128 = 1_000_000_000;

/// A point in time lies in a leap second: its nanoseconds run on behind the second
/// before.
pub open spec fn is_leap(t: Timestamp) -> bool {
    t.nanos >= SECOND_NANOS
}

/// The second of the day of a point in time.
pub open spec fn day_second(t: Timestamp) -> int {
    t.secs as int % DAY_SECS as int
}

/// The nanoseconds from `a` to `b`. A leap second at one of them counts where the
/// second of the day at the other comes later.
pub open spec fn elapsed(a: Timestamp, b: Timestamp) -> int {
    (b.secs - a.secs) * SECOND_NANOS + (b.nanos - a.nanos) + (if is_leap(a) && day_second(a)
        < day_second(b) {
        SECOND_NANOS as int
    } else if is_leap(b) && day_second(b) < day_second(a) {
        -SECOND_NANOS
    } else {
        0
    })
}

/// The whole days from `a` to `b`, negative where `b` comes first.
pub open spec fn whole_days(a: Timestamp, b: Timestamp) -> int {
    let e = elapsed(a, b);
    let day = DAY_SECS * SECOND_NANOS;
    if e >= 0 {
        e / day
    } else {
        -((-e) / day)
    }
}

/// The second of the day of a point in time.
fn second_of_day(t: Timestamp) -> (r: i128)
    ensures
        r == day_second(t),
{
    let s: i128 = t.secs as i128;
    if s >= 0 {
        s % DAY_SECS
    } else {
        let m: i128 = (-s) % DAY_SECS;
        if m == 0 {
            0
        } else {
            DAY_SECS - m
        }
    }
}

/// The whole days from `a` to `b`, negative where `b` comes first.
pub fn days_between(a: Timestamp, b: Timestamp) -> (r: i64)
    ensures
        r == whole_days(a, b),
{
    let x: i128 = second_of_day(a);
    let y: i128 = second_of_day(b);
    let leap: i128 = if a.nanos as i128 >= SECOND_NANOS && x < y {
        SECOND_NANOS
    } else if b.nanos as i128 >= SECOND_NANOS && y < x {
        -SECOND_NANOS
    } else {
        0
    };
    let e: i128 = (b.secs as i128 - a.secs as i128) * SECOND_NANOS + (b.nanos as i128
        - a.nanos as i128) + leap;
    let day: i128 = DAY_SECS * SECOND_NANOS;
    if e >= 0 {
        (e / day) as i64
    } else {
        -(((-e) / day) as i64)
    }
}

} // verus!
