//! The discrete state of the pitch stabilizer: the hold over silent frames,
//! the count of consecutive octave jumps, and the window of recent pitches
//! that the median is taken over.
use std::collections::VecDeque;
use vstd::prelude::*;

verus! {

/// What a silent frame does to the stabilized pitch.
#[derive(Clone, Copy, Debug, PartialEq, Eq, Structural)]
pub enum SilenceStep {
    /// Keep reporting the last smoothed pitch.
    Hold,
    /// Report no pitch and forget the pitch history.
    Reset,
}

/// Counters of the stabilizer and the limits they are held to.
pub struct StabilizerCounters {
    /// Octave jumps in a row that are suppressed before one is believed.
    pub max_consecutive_octaves: usize,
    /// Silent frames over which the last pitch is still reported.
    pub hold_silent_frames: usize,
    consecutive_octaves: usize,
    silent_frames: usize,
}

/// The octave-jump count after a frame, and whether the frame's pitch is
/// passed on: a jump raises the count and is suppressed while the count is
/// within `max`; the jump that takes it past `max`, and any frame that is no
/// jump, is passed on and clears the count.
pub open spec fn octave_step(count: nat, max: nat, is_jump: bool) -> (nat, bool) {
    if is_jump {
        if count + 1 <= max {
            ((count + 1) as nat, false)
        } else {
            (0, true)
        }
    } else {
        (0, true)
    }
}

/// Whether each of `n` consecutive octave jumps is passed on, starting from
/// count `count`.
pub open spec fn jump_run(count: nat, max: nat, n: nat) -> Seq<bool>
    decreases n,
{
    if n == 0 {
        seq![]
    } else {
        let (next, passed) = octave_step(count, max, true);
        seq![passed] + jump_run(next, max, (n - 1) as nat)
    }
}

/// The step taken by the `(silent + 1)`-th silent frame in a row.
pub open spec fn silence_step(silent: nat, hold: nat) -> SilenceStep {
    if silent + 1 > hold {
        SilenceStep::Reset
    } else {
        SilenceStep::Hold
    }
}

/// The steps taken by `n` silent frames in a row, after `silent` of them.
pub open spec fn silence_run(silent: nat, hold: nat, n: nat) -> Seq<SilenceStep>
    decreases n,
{
    if n == 0 {
        seq![]
    } else {
        seq![silence_step(silent, hold)] + silence_run(silent + 1, hold, (n - 1) as nat)
    }
}

impl StabilizerCounters {
    /// Limit on suppressed octave jumps in a row.
    pub closed spec fn max_octaves(&self) -> nat {
        self.max_consecutive_octaves as nat
    }

    /// Silent frames in a row over which the last pitch is held.
    pub closed spec fn hold_frames(&self) -> nat {
        self.hold_silent_frames as nat
    }

    /// Octave jumps seen in a row.
    pub closed spec fn octave_count(&self) -> nat {
        self.consecutive_octaves as nat
    }

    /// Silent frames seen in a row.
    pub closed spec fn silent_count(&self) -> nat {
        self.silent_frames as nat
    }

    /// Counters at zero with the given limits.
    pub fn new(max_consecutive_octaves: usize, hold_silent_frames: usize) -> (c: Self)
        ensures
            c.max_octaves() == max_consecutive_octaves,
            c.hold_frames() == hold_silent_frames,
            c.octave_count() == 0,
            c.silent_count() == 0,
    {
        StabilizerCounters { max_consecutive_octaves, hold_silent_frames, consecutive_octaves: 0, silent_frames: 0 }
    }

    /// Octave jumps seen in a row.
    pub fn consecutive_octaves(&self) -> (n: usize)
        ensures
            n == self.octave_count(),
    {
        self.consecutive_octaves
    }

    /// Silent frames seen in a row.
    pub fn silent_frames(&self) -> (n: usize)
        ensures
            n == self.silent_count(),
    {
        self.silent_frames
    }

    /// A frame with a pitch: the run of silent frames ends.
    pub fn voiced_frame(&mut self)
        ensures
            final(self).max_octaves() == old(self).max_octaves(),
            final(self).hold_frames() == old(self).hold_frames(),
            final(self).octave_count() == old(self).octave_count(),
            final(self).silent_count() == 0,
    {
        self.silent_frames = 0;
    }

    /// A frame without a pitch: the last pitch is held for up to
    /// `hold_silent_frames` frames in a row; after that the stabilizer is
    /// reset, which also clears the octave-jump count.
    pub fn silent_frame(&mut self) -> (step: SilenceStep)
        requires
            old(self).silent_count() < usize::MAX,
        ensures
            final(self).max_octaves() == old(self).max_octaves(),
            final(self).hold_frames() == old(self).hold_frames(),
            final(self).silent_count() == old(self).silent_count() + 1,
            step == silence_step(old(self).silent_count(), old(self).hold_frames()),
            step == SilenceStep::Reset ==> final(self).octave_count() == 0,
            step == SilenceStep::Hold ==> final(self).octave_count() == old(self).octave_count(),
    {
        self.silent_frames = self.silent_frames + 1;
        if self.silent_frames > self.hold_silent_frames {
            self.consecutive_octaves = 0;
            SilenceStep::Reset
        } else {
            SilenceStep::Hold
        }
    }

    /// A voiced frame after a pitch, `is_jump` telling whether it lies about
    /// an octave from the previous one; returns whether its pitch is passed
    /// on (see [`octave_step`]).
    pub fn octave_frame(&mut self, is_jump: bool) -> (passed: bool)
        requires
            is_jump ==> old(self).octave_count() < usize::MAX,
        ensures
            final(self).max_octaves() == old(self).max_octaves(),
            final(self).hold_frames() == old(self).hold_frames(),
            final(self).silent_count() == old(self).silent_count(),
            (final(self).octave_count(), passed) == octave_step(
                old(self).octave_count(),
                old(self).max_octaves(),
                is_jump,
            ),
    {
        if is_jump {
            self.consecutive_octaves = self.consecutive_octaves + 1;
            if self.consecutive_octaves <= self.max_consecutive_octaves {
                return false;
            }
            self.consecutive_octaves = 0;
            true
        } else {
            self.consecutive_octaves = 0;
            true
        }
    }
}

/// From a cleared count, `max` octave jumps in a row are suppressed and the
/// next one is passed on.
pub proof fn lemma_octave_jumps_break_through(max: nat)
    ensures
        jump_run(0, max, max + 1) == Seq::new(max, |i: int| false).push(true),
{
    lemma_jump_run_from(0, max);
}

proof fn lemma_jump_run_from(count: nat, max: nat)
    requires
        count <= max,
    ensures
        jump_run(count, max, (max - count + 1) as nat) == Seq::new((max - count) as nat, |i: int| false).push(
            true,
        ),
    decreases max - count,
{
    let n = (max - count + 1) as nat;
    if count == max {
        assert(jump_run(0, max, 0) == Seq::<bool>::empty());
        assert(jump_run(count, max, n) =~= seq![true]);
        assert(Seq::new(0, |i: int| false).push(true) =~= seq![true]);
    } else {
        lemma_jump_run_from(count + 1, max);
        let rest = jump_run((count + 1) as nat, max, (n - 1) as nat);
        assert(jump_run(count, max, n) == seq![false] + rest);
        assert(seq![false] + Seq::new((max - count - 1) as nat, |i: int| false).push(true) =~= Seq::new(
            (max - count) as nat,
            |i: int| false,
        ).push(true));
    }
}

/// From the first silent frame on, the last pitch is held for exactly
/// `hold` frames; every later silent frame resets.
pub proof fn lemma_silence_holds_then_resets(hold: nat, n: nat)
    ensures
        silence_run(0, hold, n).len() == n,
        forall|i: int|
            0 <= i < n ==> (#[trigger] silence_run(0, hold, n)[i] == SilenceStep::Hold <==> i < hold),
{
    lemma_silence_run_from(0, hold, n);
}

proof fn lemma_silence_run_from(silent: nat, hold: nat, n: nat)
    ensures
        silence_run(silent, hold, n).len() == n,
        forall|i: int|
            0 <= i < n ==> (#[trigger] silence_run(silent, hold, n)[i] == SilenceStep::Hold <==> silent
                + i < hold),
    decreases n,
{
    if n > 0 {
        lemma_silence_run_from(silent + 1, hold, (n - 1) as nat);
        let rest = silence_run(silent + 1, hold, (n - 1) as nat);
        let all = silence_run(silent, hold, n);
        assert(all == seq![silence_step(silent, hold)] + rest);
        assert forall|i: int| 0 <= i < n implies (#[trigger] all[i] == SilenceStep::Hold <==> silent + i
            < hold) by {
            if i > 0 {
                assert(all[i] == rest[i - 1]);
            }
        }
    }
}

/// The last `window` pitches, oldest first, that the median is taken over.
pub struct PitchWindow<T> {
    values: VecDeque<T>,
}

/// The last `window` items of `s` (all of them when there are fewer).
pub open spec fn keep_last<T>(s: Seq<T>, window: nat) -> Seq<T> {
    if s.len() > window {
        s.skip(s.len() - window)
    } else {
        s
    }
}

impl<T> PitchWindow<T> {
    /// The pitches in the window, oldest first.
    pub closed spec fn contents(&self) -> Seq<T> {
        self.values@
    }

    /// An empty window.
    pub fn new() -> (w: Self)
        ensures
            w.contents() == Seq::<T>::empty(),
    {
        PitchWindow { values: VecDeque::new() }
    }

    /// Adds a pitch and drops the oldest ones beyond `window`.
    pub fn push(&mut self, value: T, window: usize)
        ensures
            final(self).contents() == keep_last(old(self).contents().push(value), window as nat),
    {
        self.values.push_back(value);
        let ghost all = self.values@;
        while self.values.len() > window
            invariant
                all.len() >= self.values@.len(),
                self.values@ == all.skip(all.len() - self.values@.len()),
                self.values@.len() >= window || all.len() <= window,
                all.len() <= window ==> self.values@ == all,
            decreases self.values.len(),
        {
            self.values.pop_front();
            assert(self.values@ =~= all.skip(all.len() - self.values@.len()));
        }
        proof {
            if all.len() > window {
                assert(self.values@.len() == window);
            } else {
                assert(self.values@ =~= all);
            }
        }
    }

    /// Forgets every pitch.
    pub fn clear(&mut self)
        ensures
            final(self).contents() == Seq::<T>::empty(),
    {
        self.values.clear();
    }

    /// Number of pitches in the window.
    pub fn len(&self) -> (n: usize)
        ensures
            n == self.contents().len(),
    {
        self.values.len()
    }

    /// The pitches in the window, oldest first.
    pub fn values(&self) -> (v: &VecDeque<T>)
        ensures
            v@ == self.contents(),
    {
        &self.values
    }
}

} // verus!
