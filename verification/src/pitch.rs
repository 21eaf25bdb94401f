//! Pitch frames and pitch detectors.
use vstd::prelude::*;

pub mod dummy;
pub mod stabilizer;

verus! {

/// One pitch estimate from a detector. Frequencies are in thousandths of a
/// hertz and clarity (the detector's confidence, nominally `0..=1`) in
/// millionths.
#[derive(Clone, Copy, Debug, PartialEq, Eq, Structural)]
pub struct PitchFrame {
    pub frequency_millihz: i64,
    pub clarity: i32,
    pub voiced: bool,
    pub timestamp_ms: u64,
}

/// Time of the `frame_count`-th analysed buffer of `buffer_size` samples
/// at `sample_rate` Hz, in whole milliseconds, and never earlier than 1 ms.
pub open spec fn buffer_end_ms(frame_count: int, buffer_size: int, sample_rate: int) -> int {
    let t = frame_count * buffer_size * 1000 / sample_rate;
    if t < 1 {
        1
    } else {
        t
    }
}

/// Timestamp of a detector frame (see [`buffer_end_ms`]).
pub fn frame_timestamp_ms(frame_count: u64, buffer_size: u64, sample_rate: u32) -> (t: u64)
    requires
        sample_rate > 0,
        frame_count * buffer_size * 1000 <= u64::MAX,
    ensures
        t == buffer_end_ms(frame_count as int, buffer_size as int, sample_rate as int),
{
    assert(frame_count * buffer_size <= u64::MAX) by (nonlinear_arith)
        requires
            frame_count * buffer_size * 1000 <= u64::MAX,
            frame_count >= 0,
            buffer_size >= 0,
    ;
    let t = frame_count * buffer_size * 1000 / (sample_rate as u64);
    if t < 1 {
        1
    } else {
        t
    }
}

} // verus!
