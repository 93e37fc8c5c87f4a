//! The fire cooldown of a player: a repeating timer advanced by a fixed step.

use bevy::time::{Timer, TimerMode};
use std::time::Duration;
use vstd::prelude::*;

verus! {

/// Nanoseconds in one second.
pub const NANOS_PER_SECOND: u64 = 1_000_000_000;

/// A repeating timer in whole nanoseconds.
///
/// `finished` tells whether the latest tick completed an interval. It holds for
/// that tick only: the next tick clears it unless it completes one again.
#[derive(Clone, Copy, Debug, PartialEq, Eq, Structural)]
pub struct Cooldown {
    pub elapsed_ns: u64,
    pub duration_ns: u64,
    pub finished: bool,
}

/// The interval between two shots at `attack_speed` shots per second.
pub open spec fn spec_interval_ns(attack_speed: u32) -> u64
    recommends
        attack_speed > 0,
{
    (NANOS_PER_SECOND / attack_speed as u64) as u64
}

/// A cooldown at the start of its interval.
pub open spec fn spec_fresh(duration_ns: u64) -> Cooldown {
    Cooldown { elapsed_ns: 0, duration_ns, finished: false }
}

/// A cooldown after `delta_ns` more nanoseconds. When the elapsed time reaches
/// the interval the cooldown is finished and keeps the remainder, so that no
/// time is lost between intervals.
pub open spec fn spec_ticked(c: Cooldown, delta_ns: u64) -> Cooldown {
    let total = c.elapsed_ns + delta_ns;
    if total >= c.duration_ns {
        Cooldown {
            elapsed_ns: if c.duration_ns == 0 {
                0
            } else {
                (total % (c.duration_ns as int)) as u64
            },
            duration_ns: c.duration_ns,
            finished: true,
        }
    } else {
        Cooldown { elapsed_ns: total as u64, duration_ns: c.duration_ns, finished: false }
    }
}

/// Runs `Timer::tick` of bevy on a repeating, unpaused timer that has the given
/// elapsed time and interval, and reads back `Timer::elapsed` and
/// `Timer::finished`.
///
/// Trusted: the timer finishes exactly when the elapsed time plus the step
/// reaches the interval. A finished timer keeps the remainder of that sum by
/// the interval, or zero where the interval is zero; an unfinished one keeps
/// the sum.
#[verifier::external_body]
fn timer_tick(elapsed_ns: u64, duration_ns: u64, delta_ns: u64) -> (after: (u64, bool))
    ensures
        after.1 == (elapsed_ns + delta_ns >= duration_ns),
        after.1 && duration_ns == 0 ==> after.0 == 0,
        after.1 && duration_ns > 0 ==> after.0 == (elapsed_ns + delta_ns) % (duration_ns as int),
        !after.1 ==> after.0 == elapsed_ns + delta_ns,
{
    let mut timer = Timer::new(Duration::from_nanos(duration_ns), TimerMode::Repeating);
    timer.set_elapsed(Duration::from_nanos(elapsed_ns));
    timer.tick(Duration::from_nanos(delta_ns));
    (timer.elapsed().as_nanos() as u64, timer.finished())
}

impl Cooldown {
    /// A cooldown at the start of an interval of `duration_ns`.
    pub fn new(duration_ns: u64) -> (c: Cooldown)
        ensures
            c == spec_fresh(duration_ns),
    {
        Cooldown { elapsed_ns: 0, duration_ns, finished: false }
    }

    /// The interval between two shots at `attack_speed` shots per second.
    pub fn interval_ns(attack_speed: u32) -> (ns: u64)
        requires
            attack_speed > 0,
        ensures
            ns == spec_interval_ns(attack_speed),
    {
        NANOS_PER_SECOND / (attack_speed as u64)
    }

    /// Advances the cooldown by one step of `delta_ns`.
    pub fn tick(&mut self, delta_ns: u64)
        ensures
            *final(self) == spec_ticked(*old(self), delta_ns),
    {
        let after = timer_tick(self.elapsed_ns, self.duration_ns, delta_ns);
        self.elapsed_ns = after.0;
        self.finished = after.1;
    }

    /// Whether the latest tick completed an interval.
    pub fn finished(&self) -> (done: bool)
        ensures
            done == self.finished,
    {
        self.finished
    }

    /// Changes the interval; elapsed time and the finished mark stay.
    pub fn set_duration(&mut self, duration_ns: u64)
        ensures
            *final(self) == (Cooldown { duration_ns, ..*old(self) }),
    {
        self.duration_ns = duration_ns;
    }

    /// Starts the current interval over.
    pub fn reset(&mut self)
        ensures
            *final(self) == spec_fresh(old(self).duration_ns),
    {
        self.elapsed_ns = 0;
        self.finished = false;
    }
}

} // verus!
