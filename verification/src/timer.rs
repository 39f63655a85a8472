//! Countdown timers in whole milliseconds.
//!
//! Every timed behaviour of the simulation (spawn intervals, cooldowns,
//! lifetimes, the combo grace window) is a countdown: `remaining` shrinks by
//! the frame delta and the timer fires when it reaches zero. A repeating
//! timer re-arms to its duration when it fires; a one-shot timer stays at
//! zero and never fires again. Several expiries falling inside one frame
//! collapse into a single firing.

use vstd::prelude::*;

verus! {

/// A countdown timer, one-shot or repeating, in milliseconds.
#[derive(Clone, Copy, Debug, PartialEq, Eq, Structural)]
pub struct Countdown {
    /// Milliseconds left until the timer fires.
    pub remaining_ms: u32,
    /// Full duration the timer re-arms to.
    pub duration_ms: u32,
    /// Whether the timer re-arms itself after firing.
    pub repeating: bool,
}

impl Countdown {
    /// A repeating timer needs a positive period to make progress.
    pub open spec fn wf(self) -> bool {
        self.repeating ==> self.duration_ms >= 1 && self.remaining_ms >= 1
    }

    /// Whether a tick of `dt` milliseconds makes the timer fire.
    pub open spec fn spec_fires(self, dt: u32) -> bool {
        self.remaining_ms > 0 && dt >= self.remaining_ms
    }

    /// The timer state after a tick of `dt` milliseconds.
    pub open spec fn spec_tick(self, dt: u32) -> Countdown {
        if self.spec_fires(dt) {
            Countdown {
                remaining_ms: if self.repeating { self.duration_ms } else { 0 },
                ..self
            }
        } else if self.remaining_ms == 0 {
            self
        } else {
            Countdown { remaining_ms: (self.remaining_ms - dt) as u32, ..self }
        }
    }

    /// Fresh one-shot timer.
    pub fn new_once(duration_ms: u32) -> (r: Countdown)
        ensures
            r == (Countdown { remaining_ms: duration_ms, duration_ms, repeating: false }),
            r.wf(),
    {
        Countdown { remaining_ms: duration_ms, duration_ms, repeating: false }
    }

    /// Fresh repeating timer with a positive period.
    pub fn new_repeating(duration_ms: u32) -> (r: Countdown)
        requires
            duration_ms >= 1,
        ensures
            r == (Countdown { remaining_ms: duration_ms, duration_ms, repeating: true }),
            r.wf(),
    {
        Countdown { remaining_ms: duration_ms, duration_ms, repeating: true }
    }

    /// Advance the timer by `dt` milliseconds; returns whether it fired.
    pub fn tick(&mut self, dt: u32) -> (fired: bool)
        requires
            old(self).wf(),
        ensures
            fired == old(self).spec_fires(dt),
            *final(self) == old(self).spec_tick(dt),
            final(self).wf(),
    {
        if self.remaining_ms == 0 {
            false
        } else if dt >= self.remaining_ms {
            self.remaining_ms = if self.repeating { self.duration_ms } else { 0 };
            true
        } else {
            self.remaining_ms = self.remaining_ms - dt;
            false
        }
    }

    /// Whether a one-shot timer has run out.
    pub fn finished(&self) -> (r: bool)
        ensures
            r == (self.remaining_ms == 0),
    {
        self.remaining_ms == 0
    }

    /// Re-arm the timer to its full duration.
    pub fn reset(&mut self)
        ensures
            *final(self) == (Countdown { remaining_ms: old(self).duration_ms, ..*old(self) }),
    {
        self.remaining_ms = self.duration_ms;
    }

    /// Change the duration and re-arm.
    pub fn set_duration_and_reset(&mut self, duration_ms: u32)
        ensures
            *final(self) == (Countdown {
                remaining_ms: duration_ms,
                duration_ms,
                repeating: old(self).repeating,
            }),
    {
        self.duration_ms = duration_ms;
        self.remaining_ms = duration_ms;
    }
}

} // verus!
