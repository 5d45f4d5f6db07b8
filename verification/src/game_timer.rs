//! A depleting, extendable time budget. All times are milliseconds on the
//! caller's monotonic clock; `remaining` is the budget minus the elapsed time
//! since the round started, clamped at zero.

use vstd::prelude::*;

verus! {

/// The countdown of one round: `start` is the clock value at round start,
/// `duration` the total budget, `remaining` the last computed balance.
#[derive(Clone, Copy, Debug, PartialEq, Eq, Structural)]
pub struct GameTimer {
    pub start: u64,
    pub remaining: u64,
    pub duration: u64,
}

/// What `remaining` becomes when the timer is brought up to date at time
/// `now`: the budget minus the elapsed time, never below zero.
pub open spec fn remaining_at(t: GameTimer, now: u64) -> u64 {
    if now - t.start >= t.duration {
        0u64
    } else {
        (t.duration - (now - t.start)) as u64
    }
}

impl GameTimer {
    /// A timer started at clock value `start` with a budget of `duration`
    /// milliseconds.
    pub fn new(start: u64, duration: u64) -> (t: GameTimer)
        ensures
            t == (GameTimer { start, remaining: duration, duration }),
    {
        GameTimer { start, remaining: duration, duration }
    }

    /// Recomputes `remaining` from the budget and the elapsed wall time,
    /// clamped at zero. The clock is monotonic, so `now` is never before the
    /// recorded start.
    pub fn update(&mut self, now: u64)
        requires
            now >= old(self).start,
        ensures
            *final(self) == (GameTimer { remaining: remaining_at(*old(self), now), ..*old(self) }),
    {
        let elapsed = now - self.start;
        if elapsed >= self.duration {
            self.remaining = 0;
        } else {
            self.remaining = self.duration - elapsed;
        }
    }

    /// Grows the budget by `additional_time`, held at the largest
    /// representable value, and returns the new budget.
    pub fn give_additional_time(&mut self, additional_time: u64) -> (d: u64)
        ensures
            final(self).duration == add_saturating(old(self).duration, additional_time),
            final(self).start == old(self).start,
            final(self).remaining == old(self).remaining,
            d == final(self).duration,
    {
        if additional_time > u64::MAX - self.duration {
            self.duration = u64::MAX;
        } else {
            self.duration = self.duration + additional_time;
        }
        self.duration
    }

    /// Shrinks the budget by `take`, clamped so the budget never goes
    /// negative, and returns the new budget.
    pub fn take_time(&mut self, take: u64) -> (d: u64)
        ensures
            final(self).duration == sub_saturating(old(self).duration, take),
            final(self).start == old(self).start,
            final(self).remaining == old(self).remaining,
            d == final(self).duration,
    {
        if take >= self.duration {
            self.duration = 0;
        } else {
            self.duration = self.duration - take;
        }
        self.duration
    }

    /// The urgency signal for the presentation layer: flips on every whole
    /// second of the remaining time. A derived value, not separate state.
    pub fn urgent(&self) -> (r: bool)
        ensures
            r == ((self.remaining / 1000) % 2 == 0),
    {
        (self.remaining / 1000) % 2 == 0
    }
}

/// `a + b`, held at the top of the `u64` range.
pub open spec fn add_saturating(a: u64, b: u64) -> u64 {
    if a + b > u64::MAX {
        u64::MAX
    } else {
        (a + b) as u64
    }
}

/// `a - b`, held at zero.
pub open spec fn sub_saturating(a: u64, b: u64) -> u64 {
    if b >= a {
        0u64
    } else {
        (a - b) as u64
    }
}

/// Absent any bonus effect the countdown is monotone: brought up to date at a
/// later instant it shows less time, strictly less while any time is left,
/// and it never exceeds the total budget.
pub proof fn lemma_timer_monotone(t: GameTimer, n1: u64, n2: u64)
    requires
        t.start <= n1 <= n2,
    ensures
        remaining_at(t, n2) <= remaining_at(t, n1),
        n1 < n2 && remaining_at(t, n1) > 0 ==> remaining_at(t, n2) < remaining_at(t, n1),
        remaining_at(t, n1) <= t.duration,
{
}

} // verus!
