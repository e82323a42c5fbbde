//! The hourly check-in: when to wake, and what to do on waking.

use vstd::prelude::*;

verus! {

/// The title of the hourly check-in.
pub const HOURLY_TITLE: &'static str = "Hourly summary";

/// One hour, in nanoseconds: the wait where the next whole hour does not lie ahead.
pub const HOUR_NANOS: u128 = 3_600_000_000_000;

/// A local date and time of day, to the nanosecond.
#[derive(Debug, Clone, Copy, PartialEq, Eq, Structural)]
pub struct LocalTime {
    pub year: i32,
    pub month: u32,
    pub day: u32,
    pub hour: u32,
    pub minute: u32,
    pub second: u32,
    pub nanos: u32,
}

/// The start of the hour that `soon` falls in: its date and hour, at zero minutes, seconds
/// and nanoseconds. Given the local time one hour from now, this is the next whole hour.
pub fn next_whole_hour(soon: LocalTime) -> (t: LocalTime)
    requires
        soon.hour < 24,
    ensures
        t.year == soon.year,
        t.month == soon.month,
        t.day == soon.day,
        t.hour == soon.hour,
        t.minute == 0,
        t.second == 0,
        t.nanos == 0,
{
    LocalTime { year: soon.year, month: soon.month, day: soon.day, hour: soon.hour, minute: 0, second: 0, nanos: 0 }
}

/// How long to sleep, in nanoseconds, from the instant `now_nanos` to the instant
/// `next_nanos` (both counted from one origin): the time between them where the second is
/// not earlier, else one hour.
pub fn hourly_wait_nanos(now_nanos: i128, next_nanos: i128) -> (w: u128)
    ensures
        w == if next_nanos >= now_nanos { (next_nanos - now_nanos) as nat } else { HOUR_NANOS as nat },
{
    if next_nanos >= now_nanos {
        if now_nanos >= 0 {
            (next_nanos - now_nanos) as u128
        } else if next_nanos < 0 {
            (next_nanos - now_nanos) as u128
        } else {
            let below: u128 = (-(now_nanos + 1)) as u128;
            (next_nanos as u128) + below + 1
        }
    } else {
        HOUR_NANOS
    }
}

/// What wakes the hourly check-in: a shutdown, or the hour having come, with the user's
/// activity then (`None` where it cannot be told).
#[derive(Debug, Clone, Copy, PartialEq, Eq, Structural)]
pub enum HourlyEvent {
    Shutdown,
    Woke(Option<bool>),
}

/// What the hourly check-in does next.
#[derive(Debug, Clone, Copy, PartialEq, Eq, Structural)]
pub enum HourlyAction {
    /// Stop checking in.
    Stop,
    /// Send the check-in titled `HOURLY_TITLE`, then wait for the next hour.
    SendCheckin,
    /// Send nothing this hour, and wait for the next.
    Skip,
}

/// The action for `event`: stop on a shutdown; on the hour, check in exactly when the user
/// is known to be active.
pub fn hourly_action(event: HourlyEvent) -> (a: HourlyAction)
    ensures
        a == match event {
            HourlyEvent::Shutdown => HourlyAction::Stop,
            HourlyEvent::Woke(Some(true)) => HourlyAction::SendCheckin,
            HourlyEvent::Woke(_) => HourlyAction::Skip,
        },
{
    match event {
        HourlyEvent::Shutdown => HourlyAction::Stop,
        HourlyEvent::Woke(active) => match active {
            Some(true) => HourlyAction::SendCheckin,
            _ => HourlyAction::Skip,
        },
    }
}

} // verus!
