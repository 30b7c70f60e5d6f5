//! A countdown timer over integer milliseconds: a one-shot countdown
//! that a server resets to its full processing duration whenever a new
//! request enters service.

use vstd::prelude::*;

verus! {

/// One-shot countdown timer.  `remaining_ms` counts down from `total_ms`
/// to zero; the tick that reaches zero reports "just finished".
pub struct Timer {
    pub remaining_ms: u64,
    pub total_ms: u64,
}

impl Timer {
    /// A timer's remaining time never exceeds its total duration.
    pub open spec fn wf(self) -> bool {
        self.remaining_ms <= self.total_ms
    }

    /// Fresh timer with the full duration remaining.
    pub fn new(total_ms: u64) -> (r: Timer)
        ensures
            r.wf(),
            r.total_ms == total_ms,
            r.remaining_ms == total_ms,
    {
        Timer { remaining_ms: total_ms, total_ms }
    }

    /// Advance the countdown by `dt_ms`.  Returns true exactly when this
    /// call makes the countdown reach zero.
    pub fn tick(&mut self, dt_ms: u64) -> (just_finished: bool)
        requires
            old(self).wf(),
        ensures
            final(self).wf(),
            final(self).total_ms == old(self).total_ms,
            final(self).remaining_ms == if old(self).remaining_ms >= dt_ms {
                (old(self).remaining_ms - dt_ms) as u64
            } else {
                0u64
            },
            just_finished == (old(self).remaining_ms > 0 && final(self).remaining_ms == 0),
    {
        let was_running = self.remaining_ms > 0;
        if self.remaining_ms >= dt_ms {
            self.remaining_ms = self.remaining_ms - dt_ms;
        } else {
            self.remaining_ms = 0;
        }
        was_running && self.remaining_ms == 0
    }

    /// Whether the countdown has reached zero.
    pub fn finished(&self) -> (r: bool)
        ensures
            r == (self.remaining_ms == 0),
    {
        self.remaining_ms == 0
    }
}

} // verus!
