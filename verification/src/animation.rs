//! The percentage counter that drives the indicator, and the sweep angle
//! derived from it. Angles are held in tenths of a degree, so that every
//! percentage has an exact integer sweep.

use vstd::prelude::*;

verus! {

/// Largest value of the counter.
pub const MAX_PROGRESS: u8 = 100;

/// Number of distinct counter values, and so the length of one cycle.
pub const PERIOD: u8 = 101;

/// A full turn, in tenths of a degree.
pub const FULL_TURN_TENTHS: u32 = 3600;

/// The counter value that follows `p`.
pub open spec fn next_progress(p: int) -> int {
    (p + 1) % 101
}

/// The counter value reached from `p` after `ticks` ticks.
pub open spec fn progress_after(p: int, ticks: nat) -> int
    decreases ticks,
{
    if ticks == 0 {
        p
    } else {
        next_progress(progress_after(p, (ticks - 1) as nat))
    }
}

/// Sweep of the arc at counter value `p`, in tenths of a degree:
/// `p` hundredths of a full turn.
pub open spec fn sweep_tenths_of(p: int) -> int {
    p * 3600 / 100
}

/// The animation's only persistent state.
#[derive(Clone, Copy, Debug)]
pub struct Animation {
    progress: u8,
}

impl Animation {
    /// The counter never leaves `0..=100`.
    pub closed spec fn wf(&self) -> bool {
        self.progress <= 100
    }

    /// The counter value, as a mathematical integer.
    pub closed spec fn value(&self) -> int {
        self.progress as int
    }

    /// A fresh animation, at zero.
    pub fn new() -> (a: Animation)
        ensures
            a.wf(),
            a.value() == 0,
    {
        Animation { progress: 0 }
    }

    /// An animation that starts at `progress`, if that is a percentage.
    pub fn starting_at(progress: u8) -> (a: Option<Animation>)
        ensures
            a.is_some() <==> progress <= 100,
            a.is_some() ==> a.unwrap().wf() && a.unwrap().value() == progress,
    {
        if progress <= MAX_PROGRESS {
            Some(Animation { progress })
        } else {
            None
        }
    }

    /// The current counter value.
    pub fn progress(&self) -> (p: u8)
        requires
            self.wf(),
        ensures
            p == self.value(),
            p <= 100,
    {
        self.progress
    }

    /// The sweep of the arc for the current counter value, in tenths of a
    /// degree.
    pub fn sweep_tenths(&self) -> (s: u32)
        requires
            self.wf(),
        ensures
            s == sweep_tenths_of(self.value()),
            s == 36 * self.value(),
            s <= 3600,
    {
        sweep_tenths(self.progress)
    }

    /// One tick: the counter moves to the next value, and to zero after 100.
    pub fn advance(&mut self)
        requires
            old(self).wf(),
        ensures
            final(self).wf(),
            final(self).value() == next_progress(old(self).value()),
            old(self).value() < 100 ==> final(self).value() == old(self).value() + 1,
            old(self).value() == 100 ==> final(self).value() == 0,
    {
        self.progress = (self.progress + 1) % PERIOD;
    }
}

/// Sweep of the arc at counter value `progress`, in tenths of a degree.
pub fn sweep_tenths(progress: u8) -> (s: u32)
    requires
        progress <= 100,
    ensures
        s == sweep_tenths_of(progress as int),
        s == 36 * progress,
        s <= 3600,
{
    let p: u32 = progress as u32;
    p * FULL_TURN_TENTHS / 100
}

/// The sweep is 3.6 degrees for each percent: ten times the sweep in tenths
/// of a degree is thirty-six times the counter, and the sweep stays within
/// one full turn.
pub proof fn lemma_sweep_is_linear(p: int)
    requires
        0 <= p <= 100,
    ensures
        sweep_tenths_of(p) == 36 * p,
        0 <= sweep_tenths_of(p) <= 3600,
{
}

/// The sweep never shrinks as the counter grows.
pub proof fn lemma_sweep_is_monotone(p: int, q: int)
    requires
        0 <= p <= q <= 100,
    ensures
        sweep_tenths_of(p) <= sweep_tenths_of(q),
{
    lemma_sweep_is_linear(p);
    lemma_sweep_is_linear(q);
}

/// Ticking keeps the counter a percentage, and moves it by `ticks` around a
/// cycle of 101 values.
pub proof fn lemma_progress_after(p: int, ticks: nat)
    requires
        0 <= p <= 100,
    ensures
        progress_after(p, ticks) == (p + ticks) % 101,
        0 <= progress_after(p, ticks) <= 100,
    decreases ticks,
{
    if ticks > 0 {
        lemma_progress_after(p, (ticks - 1) as nat);
    }
}

/// The counter is periodic: 101 ticks from any percentage lead back to it.
pub proof fn lemma_progress_period(p: int)
    requires
        0 <= p <= 100,
    ensures
        progress_after(p, 101) == p,
{
    lemma_progress_after(p, 101);
}

} // verus!
