//! Countdown timer scoped to a combat phase: it accumulates elapsed time up
//! to a fixed duration and reports the single tick on which it completes, so
//! that an expiry side effect fires exactly once.

use vstd::prelude::*;

verus! {

/// A countdown with saturating elapsed time, in abstract time units.
#[derive(Debug, Clone, Copy, PartialEq, Eq, Structural)]
pub struct CombatTimer {
    pub elapsed: u64,
    pub duration: u64,
}

impl CombatTimer {
    /// Elapsed time never exceeds the duration.
    pub open spec fn wf(self) -> bool {
        self.elapsed <= self.duration
    }

    /// Whether the countdown has run its full duration.
    pub open spec fn spec_finished(self) -> bool {
        self.elapsed == self.duration
    }

    /// A fresh countdown of the given duration.
    pub fn new(duration: u64) -> (t: Self)
        ensures
            t.wf(),
            t.elapsed == 0,
            t.duration == duration,
            t.spec_finished() <==> duration == 0,
    {
        CombatTimer { elapsed: 0, duration }
    }

    /// Advances the countdown by `delta`, saturating at the duration, and
    /// reports whether this very tick completed it: true on the tick that
    /// crosses the duration and never again, so an expiry effect cannot
    /// double-fire.
    pub fn tick(&mut self, delta: u64) -> (just_finished: bool)
        requires
            old(self).wf(),
        ensures
            final(self).wf(),
            final(self).duration == old(self).duration,
            final(self).elapsed == if old(self).elapsed + delta <= old(self).duration {
                old(self).elapsed + delta
            } else {
                old(self).duration as int
            },
            just_finished == (!old(self).spec_finished() && final(self).spec_finished()),
    {
        let was_finished = self.elapsed == self.duration;
        if delta <= self.duration - self.elapsed {
            self.elapsed = self.elapsed + delta;
        } else {
            self.elapsed = self.duration;
        }
        !was_finished && self.elapsed == self.duration
    }

    /// Whether the countdown has run its full duration.
    pub fn finished(&self) -> (r: bool)
        ensures
            r == self.spec_finished(),
    {
        self.elapsed == self.duration
    }

    /// The pair (elapsed, duration), the exact fraction of the countdown
    /// already spent, for a progress display.
    pub fn progress(&self) -> (r: (u64, u64))
        ensures
            r.0 == self.elapsed,
            r.1 == self.duration,
    {
        (self.elapsed, self.duration)
    }
}

} // verus!
