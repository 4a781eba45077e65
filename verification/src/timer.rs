//! A throttle driven by clock readings.
//!
//! Clock readings and durations are in nanoseconds.

use vstd::prelude::*;

verus! {

/// The usual interval between two reports: one second.
pub const REPORT_PERIOD_NANOS: u64 = 1_000_000_000;

/// Decides when a report may be emitted.
///
/// The timer is *armed* while `ready` is set and *idle* otherwise. It counts
/// `countdown` down by the time that passes between two updates, arms itself
/// when the countdown lapses, and starts the countdown again from `period`.
#[derive(Clone, Copy, Debug, PartialEq, Eq)]
pub struct Timer {
    /// The clock reading of the last update.
    pub last_instant: u64,
    /// The time between the last two updates.
    pub delta: u64,
    /// The interval between two reports.
    pub period: u64,
    /// The time left until the timer arms itself again.
    pub countdown: u64,
    /// Whether a report may be emitted now.
    pub ready: bool,
}

impl Timer {
    /// The countdown never exceeds the period.
    pub open spec fn wf(self) -> bool {
        self.countdown <= self.period
    }

    /// The timer as `new` makes it.
    pub open spec fn fresh(period: u64, now: u64) -> Timer {
        Timer { last_instant: now, delta: 0, period, countdown: 0, ready: true }
    }

    /// The clock reading that an update at `now` settles on: a clock that
    /// steps back is held at the last reading.
    pub open spec fn reading(self, now: u64) -> u64 {
        if now > self.last_instant {
            now
        } else {
            self.last_instant
        }
    }

    /// Whether an update at `now` exhausts the countdown.
    pub open spec fn lapses(self, now: u64) -> bool {
        self.countdown <= self.reading(now) - self.last_instant
    }

    /// The timer after an update at `now`.
    pub open spec fn updated(self, now: u64) -> Timer {
        let instant = self.reading(now);
        let delta = (instant - self.last_instant) as u64;
        if self.lapses(now) {
            Timer {
                last_instant: instant,
                delta,
                period: self.period,
                countdown: self.period,
                ready: true,
            }
        } else {
            Timer {
                last_instant: instant,
                delta,
                period: self.period,
                countdown: (self.countdown - delta) as u64,
                ready: self.ready,
            }
        }
    }

    /// The timer after its report was emitted.
    pub open spec fn consumed(self) -> Timer {
        Timer { ready: false, ..self }
    }

    /// An armed timer that was last updated at `now`, so that the first update
    /// allows a report at once.
    pub fn new(period: u64, now: u64) -> (timer: Timer)
        ensures
            timer == Timer::fresh(period, now),
            timer.wf(),
    {
        Timer { last_instant: now, delta: 0, period, countdown: 0, ready: true }
    }

    /// Takes the clock reading `now`: records the time since the last update
    /// in `delta`, and counts down by it. When that exhausts the countdown the
    /// timer arms itself and the countdown starts again from `period`.
    pub fn update(&mut self, now: u64)
        ensures
            *final(self) == old(self).updated(now),
            old(self).wf() ==> final(self).wf(),
    {
        let instant: u64 = if now > self.last_instant {
            now
        } else {
            self.last_instant
        };
        let delta: u64 = instant - self.last_instant;
        self.last_instant = instant;
        self.delta = delta;
        if self.countdown <= delta {
            self.countdown = self.period;
            self.ready = true;
        } else {
            self.countdown = self.countdown - delta;
        }
    }

    /// Disarms the timer once its report was emitted. The countdown is left as
    /// it is: it started again when the timer armed itself.
    pub fn consume(&mut self)
        ensures
            *final(self) == old(self).consumed(),
            old(self).wf() ==> final(self).wf(),
    {
        self.ready = false;
    }
}

} // verus!
