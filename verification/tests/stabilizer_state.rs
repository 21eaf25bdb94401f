use ferrotone::pitch::stabilizer::{PitchWindow, SilenceStep, StabilizerCounters};

#[test]
fn octave_jumps_pass_after_the_limit() {
    let mut c = StabilizerCounters::new(3, 5);
    assert!(!c.octave_frame(true));
    assert!(!c.octave_frame(true));
    assert!(!c.octave_frame(true));
    assert_eq!(c.consecutive_octaves(), 3);
    assert!(c.octave_frame(true));
    assert_eq!(c.consecutive_octaves(), 0);
    // The count starts again after a passed jump.
    assert!(!c.octave_frame(true));
    assert_eq!(c.consecutive_octaves(), 1);
}

#[test]
fn ordinary_frame_clears_octave_count() {
    let mut c = StabilizerCounters::new(4, 5);
    assert!(!c.octave_frame(true));
    assert!(!c.octave_frame(true));
    assert!(c.octave_frame(false));
    assert_eq!(c.consecutive_octaves(), 0);
    assert!(!c.octave_frame(true));
}

#[test]
fn zero_limit_passes_every_jump() {
    let mut c = StabilizerCounters::new(0, 5);
    assert!(c.octave_frame(true));
    assert!(c.octave_frame(true));
    assert_eq!(c.consecutive_octaves(), 0);
}

#[test]
fn silence_holds_then_resets() {
    let mut c = StabilizerCounters::new(4, 5);
    for _ in 0..5 {
        assert_eq!(c.silent_frame(), SilenceStep::Hold);
    }
    assert_eq!(c.silent_frame(), SilenceStep::Reset);
    assert_eq!(c.silent_frame(), SilenceStep::Reset);
    assert_eq!(c.silent_frames(), 7);
    c.voiced_frame();
    assert_eq!(c.silent_frames(), 0);
    assert_eq!(c.silent_frame(), SilenceStep::Hold);
}

#[test]
fn reset_clears_octave_count_and_hold_keeps_it() {
    let mut c = StabilizerCounters::new(4, 1);
    assert!(!c.octave_frame(true));
    assert!(!c.octave_frame(true));
    assert_eq!(c.silent_frame(), SilenceStep::Hold);
    assert_eq!(c.consecutive_octaves(), 2);
    assert_eq!(c.silent_frame(), SilenceStep::Reset);
    assert_eq!(c.consecutive_octaves(), 0);
}

#[test]
fn zero_hold_resets_at_once() {
    let mut c = StabilizerCounters::new(4, 0);
    assert_eq!(c.silent_frame(), SilenceStep::Reset);
}

#[test]
fn window_keeps_latest_values() {
    let mut w: PitchWindow<u32> = PitchWindow::new();
    for v in [1, 2, 3, 4, 5] {
        w.push(v, 3);
    }
    assert_eq!(w.values(), &vec![3, 4, 5]);
    assert_eq!(w.len(), 3);
    w.push(6, 5);
    assert_eq!(w.values(), &vec![3, 4, 5, 6]);
    w.push(7, 2);
    assert_eq!(w.values(), &vec![6, 7]);
    w.clear();
    assert_eq!(w.len(), 0);
}

#[test]
fn zero_window_keeps_nothing() {
    let mut w: PitchWindow<u32> = PitchWindow::new();
    w.push(1, 0);
    assert_eq!(w.len(), 0);
}
