//! A detector that always reports the same pitch.
use vstd::prelude::*;
use crate::pitch::PitchFrame;

verus! {

/// Milliseconds between the frames a [`DummyDetector`] reports.
pub const DUMMY_FRAME_MS: u64 = 32;

/// Reports one fixed pitch frame per processed buffer, whatever it holds;
/// a stand-in for a real detector in tests and development.
pub struct DummyDetector {
    frequency_millihz: i64,
    clarity: i32,
    voiced: bool,
    frame_count: u64,
}

impl DummyDetector {
    /// Reported frequency.
    pub closed spec fn frequency(&self) -> i64 {
        self.frequency_millihz
    }

    /// Reported clarity.
    pub closed spec fn clarity(&self) -> i32 {
        self.clarity
    }

    /// Reported voicing.
    pub closed spec fn voiced(&self) -> bool {
        self.voiced
    }

    /// Number of buffers processed since creation or the last reset.
    pub closed spec fn frames_processed(&self) -> u64 {
        self.frame_count
    }

    /// A detector reporting `frequency_millihz`, `clarity` and `voiced`.
    pub fn new(frequency_millihz: i64, clarity: i32, voiced: bool) -> (d: Self)
        ensures
            d.frequency() == frequency_millihz,
            d.clarity() == clarity,
            d.voiced() == voiced,
            d.frames_processed() == 0,
    {
        DummyDetector { frequency_millihz, clarity, voiced, frame_count: 0 }
    }

    /// Processes one buffer: reports the fixed pitch, stamped 32 ms after
    /// the previous frame (the first at 32 ms).
    pub fn process<T>(&mut self, samples: &[T]) -> (frames: Vec<PitchFrame>)
        requires
            (old(self).frames_processed() + 1) * (DUMMY_FRAME_MS as int) <= u64::MAX,
        ensures
            final(self).frames_processed() == old(self).frames_processed() + 1,
            final(self).frequency() == old(self).frequency(),
            final(self).clarity() == old(self).clarity(),
            final(self).voiced() == old(self).voiced(),
            frames@ == seq![
                PitchFrame {
                    frequency_millihz: old(self).frequency(),
                    clarity: old(self).clarity(),
                    voiced: old(self).voiced(),
                    timestamp_ms: ((old(self).frames_processed() + 1) * (DUMMY_FRAME_MS as int)) as u64,
                },
            ],
    {
        self.frame_count = self.frame_count + 1;
        let frame = PitchFrame {
            frequency_millihz: self.frequency_millihz,
            clarity: self.clarity,
            voiced: self.voiced,
            timestamp_ms: self.frame_count * DUMMY_FRAME_MS,
        };
        let mut frames = Vec::new();
        frames.push(frame);
        assert(frames@ =~= seq![frame]);
        frames
    }

    /// Number of buffers processed since creation or the last reset.
    pub fn frame_count(&self) -> (n: u64)
        ensures
            n == self.frames_processed(),
    {
        self.frame_count
    }

    /// Restarts the frame clock.
    pub fn reset(&mut self)
        ensures
            final(self).frames_processed() == 0,
            final(self).frequency() == old(self).frequency(),
            final(self).clarity() == old(self).clarity(),
            final(self).voiced() == old(self).voiced(),
    {
        self.frame_count = 0;
    }
}

} // verus!
