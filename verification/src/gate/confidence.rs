//! Confidence gate: drops pitch frames whose clarity is too low.
use vstd::prelude::*;
use crate::pitch::PitchFrame;

verus! {

/// Amount, in millionths, by which the threshold is lowered after a buffer
/// in which some frame passed.
pub const CONFIDENCE_HYSTERESIS: i32 = 50_000;

/// The clarity a frame needs to pass: the threshold, lowered by the
/// hysteresis when the previous buffer let a frame through.
pub open spec fn effective_threshold(threshold: i32, hysteresis: i32, was_above: bool) -> int {
    if was_above {
        threshold - hysteresis
    } else {
        threshold as int
    }
}

/// Frames with at least clarity `min`.
pub open spec fn frames_at_least(frames: Seq<PitchFrame>, min: int) -> Seq<PitchFrame> {
    frames.filter(|f: PitchFrame| f.clarity >= min)
}

/// Drops pitch frames below a clarity threshold, with hysteresis.
pub struct ConfidenceGate {
    enabled: bool,
    threshold: i32,
    hysteresis: i32,
    was_above_threshold: bool,
}

impl ConfidenceGate {
    /// Frames are dropped when their clarity is low.
    pub closed spec fn is_enabled(&self) -> bool {
        self.enabled
    }

    /// Clarity threshold in millionths.
    pub closed spec fn threshold(&self) -> i32 {
        self.threshold
    }

    /// Hysteresis in millionths.
    pub closed spec fn hysteresis(&self) -> i32 {
        self.hysteresis
    }

    /// Some frame of the previous filtered buffer passed.
    pub closed spec fn was_above(&self) -> bool {
        self.was_above_threshold
    }

    /// An enabled gate with clarity threshold `threshold` (millionths).
    pub fn new(threshold: i32) -> (g: Self)
        ensures
            g.is_enabled(),
            g.threshold() == threshold,
            g.hysteresis() == CONFIDENCE_HYSTERESIS,
            !g.was_above(),
    {
        ConfidenceGate {
            enabled: true,
            threshold,
            hysteresis: CONFIDENCE_HYSTERESIS,
            was_above_threshold: false,
        }
    }

    /// The same gate, enabled or not.
    pub fn with_enabled(self, enabled: bool) -> (g: Self)
        ensures
            g.is_enabled() == enabled,
            g.threshold() == self.threshold(),
            g.hysteresis() == self.hysteresis(),
            g.was_above() == self.was_above(),
    {
        let mut g = self;
        g.enabled = enabled;
        g
    }

    /// Keeps, in order, the frames whose clarity reaches the effective
    /// threshold, and remembers whether any did. A disabled gate returns
    /// the frames unchanged and keeps its state.
    pub fn process(&mut self, frames: Vec<PitchFrame>) -> (kept: Vec<PitchFrame>)
        ensures
            final(self).is_enabled() == old(self).is_enabled(),
            final(self).threshold() == old(self).threshold(),
            final(self).hysteresis() == old(self).hysteresis(),
            !old(self).is_enabled() ==> {
                &&& kept@ == frames@
                &&& final(self).was_above() == old(self).was_above()
            },
            old(self).is_enabled() ==> {
                let min = effective_threshold(
                    old(self).threshold(),
                    old(self).hysteresis(),
                    old(self).was_above(),
                );
                &&& kept@ == frames_at_least(frames@, min)
                &&& final(self).was_above() == (kept@.len() > 0)
            },
    {
        if !self.enabled {
            return frames;
        }
        let effective: i64 = if self.was_above_threshold {
            self.threshold as i64 - self.hysteresis as i64
        } else {
            self.threshold as i64
        };
        let ghost min = effective as int;
        let mut kept: Vec<PitchFrame> = Vec::new();
        let n = frames.len();
        let mut i: usize = 0;
        while i < n
            invariant
                n == frames@.len(),
                i <= n,
                min == effective as int,
                kept@ == frames_at_least(frames@.take(i as int), min),
            decreases n - i,
        {
            let f = frames[i];
            proof {
                reveal(Seq::filter);
                assert(frames@.take(i as int + 1).drop_last() =~= frames@.take(i as int));
                assert(frames@.take(i as int + 1).last() == f);
                assert(frames_at_least(frames@.take(i as int + 1), min) == if f.clarity >= min {
                    frames_at_least(frames@.take(i as int), min).push(f)
                } else {
                    frames_at_least(frames@.take(i as int), min)
                });
            }
            if f.clarity as i64 >= effective {
                kept.push(f);
            }
            i = i + 1;
        }
        assert(frames@.take(n as int) =~= frames@);
        self.was_above_threshold = kept.len() > 0;
        kept
    }
}

/// Exactly the frames that reach the threshold are kept: every kept
/// frame reaches it, every input frame that reaches it is kept, and no
/// frame is added.
pub proof fn lemma_gate_keeps_exactly_passing_frames(frames: Seq<PitchFrame>, min: int)
    ensures
        frames_at_least(frames, min).len() <= frames.len(),
        forall|i: int|
            0 <= i < frames_at_least(frames, min).len() ==> (#[trigger] frames_at_least(
                frames,
                min,
            )[i]).clarity >= min,
        forall|i: int|
            0 <= i < frames.len() && (#[trigger] frames[i]).clarity >= min ==> frames_at_least(
                frames,
                min,
            ).contains(frames[i]),
{
    let pred = |f: PitchFrame| f.clarity >= min;
    frames.lemma_filter_len(pred);
    assert forall|i: int| 0 <= i < frames.filter(pred).len() implies (#[trigger] frames.filter(
        pred,
    )[i]).clarity >= min by {
        frames.lemma_filter_pred(pred, i);
    }
    assert forall|i: int| 0 <= i < frames.len() && (#[trigger] frames[i]).clarity >= min implies frames.filter(
        pred,
    ).contains(frames[i]) by {
        frames.lemma_filter_contains(pred, i);
    }
}

} // verus!
