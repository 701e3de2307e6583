//! A repeating countdown.

use vstd::prelude::*;

verus! {

/// One in fixed point: the value of [`Timer::percent_left`] on a fresh timer.
pub const WHOLE: u64 = 1_000_000;

/// A repeating countdown over microseconds.
///
/// `elapsed` is the time gathered toward the next completion. A tick that
/// reaches `duration` completes the countdown and carries the remainder into
/// the next one. A timer of zero duration completes on every tick.
#[derive(Clone, Copy, PartialEq, Eq, Structural, Debug)]
pub struct Timer {
    pub elapsed: u64,
    pub duration: u64,
    pub finished: bool,
}

impl Timer {
    /// The timer after `delta` more microseconds.
    pub open spec fn ticked(self, delta: u64) -> Timer {
        let total = self.elapsed + delta;
        if total >= self.duration {
            Timer {
                elapsed: if self.duration == 0 {
                    0
                } else {
                    (total % (self.duration as int)) as u64
                },
                duration: self.duration,
                finished: true,
            }
        } else {
            Timer { elapsed: total as u64, duration: self.duration, finished: false }
        }
    }

    /// Share of the countdown that is still to run, in fixed point.
    pub open spec fn remaining(self) -> int {
        if self.elapsed >= self.duration {
            0
        } else {
            WHOLE - (self.elapsed * WHOLE) / (self.duration as int)
        }
    }

    /// A fresh countdown of `duration` microseconds.
    pub fn new(duration: u64) -> (t: Timer)
        ensures
            t == (Timer { elapsed: 0, duration, finished: false }),
    {
        Timer { elapsed: 0, duration, finished: false }
    }

    /// Advances the countdown by `delta` microseconds.
    pub fn tick(&mut self, delta: u64)
        ensures
            *final(self) == old(self).ticked(delta),
    {
        let total: u128 = self.elapsed as u128 + delta as u128;
        if total >= self.duration as u128 {
            self.finished = true;
            if self.duration == 0 {
                self.elapsed = 0;
            } else {
                self.elapsed = (total % (self.duration as u128)) as u64;
            }
        } else {
            self.finished = false;
            self.elapsed = total as u64;
        }
    }

    /// Whether the last tick completed the countdown.
    pub fn finished(&self) -> (b: bool)
        ensures
            b == self.finished,
    {
        self.finished
    }

    /// Replaces the duration. The elapsed time is kept as it is, so a
    /// countdown that has already run longer than the new duration completes
    /// on the next tick.
    pub fn set_duration(&mut self, duration: u64)
        ensures
            *final(self) == (Timer { duration, ..*old(self) }),
    {
        self.duration = duration;
    }

    /// Share of the countdown that is still to run, between `0` and [`WHOLE`].
    pub fn percent_left(&self) -> (p: u64)
        ensures
            p == self.remaining(),
            p <= WHOLE,
    {
        if self.elapsed >= self.duration {
            0
        } else {
            let done: u128 = (self.elapsed as u128 * WHOLE as u128) / (self.duration as u128);
            assert(done <= WHOLE) by (nonlinear_arith)
                requires
                    done == (self.elapsed * WHOLE) / (self.duration as int),
                    0 <= self.elapsed < self.duration,
                    WHOLE >= 0,
            ;
            WHOLE - done as u64
        }
    }
}

/// A tick shorter than what is left does not complete the countdown, and any
/// other tick does.
pub proof fn lemma_tick_completes(t: Timer, delta: u64)
    ensures
        t.ticked(delta).finished <==> t.elapsed + delta >= t.duration,
        t.ticked(delta).duration == t.duration,
        t.duration > 0 ==> t.ticked(delta).elapsed < t.duration,
{
    if t.duration > 0 {
        vstd::arithmetic::div_mod::lemma_mod_bound(t.elapsed + delta, t.duration as int);
    }
}

} // verus!
