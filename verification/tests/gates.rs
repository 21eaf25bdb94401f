use ferrotone::gate::confidence::ConfidenceGate;
use ferrotone::gate::noise_suppression::FrameAligner;
use ferrotone::pitch::PitchFrame;

fn ppm(clarity: f32) -> i32 {
    (clarity * 1_000_000.0).round() as i32
}

fn make_frame(clarity: f32) -> PitchFrame {
    PitchFrame {
        frequency_millihz: 440_000,
        clarity: ppm(clarity),
        voiced: clarity > 0.3,
        timestamp_ms: 0,
    }
}

#[test]
fn low_clarity_filtered() {
    let mut gate = ConfidenceGate::new(ppm(0.3));
    let frames = vec![make_frame(0.1), make_frame(0.2)];
    let result = gate.process(frames);
    assert!(result.is_empty());
}

#[test]
fn high_clarity_passes() {
    let mut gate = ConfidenceGate::new(ppm(0.3));
    let frames = vec![make_frame(0.5), make_frame(0.9)];
    let result = gate.process(frames);
    assert_eq!(result.len(), 2);
}

#[test]
fn disabled_passes_all() {
    let mut gate = ConfidenceGate::new(ppm(0.3)).with_enabled(false);
    let frames = vec![make_frame(0.1), make_frame(0.9)];
    let result = gate.process(frames);
    assert_eq!(result.len(), 2);
}

#[test]
fn mixed_clarity() {
    let mut gate = ConfidenceGate::new(ppm(0.3));
    let frames = vec![make_frame(0.1), make_frame(0.5), make_frame(0.2), make_frame(0.9)];
    let result = gate.process(frames);
    assert_eq!(result.len(), 2);
    for frame in &result {
        assert!(frame.clarity >= ppm(0.3));
    }
}

#[test]
fn hysteresis_holds_near_threshold() {
    let mut gate = ConfidenceGate::new(ppm(0.3));
    let result = gate.process(vec![make_frame(0.9)]);
    assert_eq!(result.len(), 1);
    let result = gate.process(vec![make_frame(0.29)]);
    assert_eq!(result.len(), 1, "hysteresis should let 0.29 pass after 0.9");
    let result = gate.process(vec![make_frame(0.20)]);
    assert!(result.is_empty(), "0.20 should fail even with hysteresis");
    let result = gate.process(vec![make_frame(0.29)]);
    assert!(result.is_empty(), "0.29 should fail without hysteresis");
}

#[test]
fn gate_keeps_order_and_frames() {
    let mut gate = ConfidenceGate::new(500_000);
    let frames = vec![
        PitchFrame { frequency_millihz: 1, clarity: 600_000, voiced: true, timestamp_ms: 1 },
        PitchFrame { frequency_millihz: 2, clarity: 100_000, voiced: false, timestamp_ms: 2 },
        PitchFrame { frequency_millihz: 3, clarity: 500_000, voiced: true, timestamp_ms: 3 },
    ];
    let kept = gate.process(frames.clone());
    assert_eq!(kept, vec![frames[0], frames[2]]);
    // After a passing buffer the threshold is 450_000; exactly at it passes.
    let kept = gate.process(vec![PitchFrame { frequency_millihz: 4, clarity: 450_000, voiced: true, timestamp_ms: 4 }]);
    assert_eq!(kept.len(), 1);
    let kept = gate.process(vec![PitchFrame { frequency_millihz: 5, clarity: 449_999, voiced: true, timestamp_ms: 5 }]);
    assert!(kept.is_empty());
    let kept = gate.process(vec![PitchFrame { frequency_millihz: 6, clarity: 450_000, voiced: true, timestamp_ms: 6 }]);
    assert!(kept.is_empty());
}

#[test]
fn empty_buffer_resets_hysteresis() {
    let mut gate = ConfidenceGate::new(300_000);
    assert_eq!(gate.process(vec![make_frame(0.9)]).len(), 1);
    assert!(gate.process(vec![]).is_empty());
    assert!(gate.process(vec![make_frame(0.29)]).is_empty());
}

const FRAME: usize = 480;

#[test]
fn disabled_is_noop() {
    let mut aligner: FrameAligner<f32> = FrameAligner::new(FRAME).with_enabled(false);
    let mut samples = vec![0.5, -0.5, 0.25, -0.25];
    let original = samples.clone();
    aligner.process(&mut samples);
    assert_eq!(samples, original);
}

#[test]
fn noise_suppression_empty_buffer_no_panic() {
    let mut aligner: FrameAligner<f32> = FrameAligner::new(FRAME);
    let mut empty: Vec<f32> = vec![];
    aligner.process(&mut empty);
    assert!(empty.is_empty());
}

#[test]
fn reset_clears_leftover() {
    let mut aligner: FrameAligner<f32> = FrameAligner::new(FRAME).with_enabled(false);
    let mut samples = vec![0.5; 100];
    aligner.process(&mut samples);
    assert_eq!(aligner.pending_len(), 0);
    let mut enabled: FrameAligner<f32> = FrameAligner::new(FRAME);
    let mut samples = vec![0.5; 100];
    enabled.process(&mut samples);
    assert_eq!(enabled.pending_len(), 100);
    enabled.reset();
    assert_eq!(enabled.pending_len(), 0);
}

#[test]
fn full_frame_processed() {
    let mut aligner: FrameAligner<f32> = FrameAligner::new(FRAME);
    let mut samples = vec![0.1; 480];
    let len_before = samples.len();
    aligner.process(&mut samples);
    assert_eq!(samples.len(), len_before);
    assert_eq!(aligner.pending_len(), 0);
}

#[test]
fn partial_frame_buffered() {
    let mut aligner: FrameAligner<f32> = FrameAligner::new(FRAME);
    let mut samples = vec![0.1; 500];
    aligner.process(&mut samples);
    assert_eq!(samples.len(), 480);
    assert_eq!(aligner.pending_len(), 20);
}

#[test]
fn leftover_prepended() {
    let mut aligner: FrameAligner<f32> = FrameAligner::new(FRAME);
    let mut s1 = vec![0.1; 500];
    aligner.process(&mut s1);
    assert_eq!(s1.len(), 480);
    assert_eq!(aligner.pending_len(), 20);

    let mut s2 = vec![0.1; 460];
    aligner.process(&mut s2);
    assert_eq!(s2.len(), 480);
    assert_eq!(aligner.pending_len(), 0);
}

#[test]
fn framing_keeps_sample_order() {
    let mut aligner: FrameAligner<u32> = FrameAligner::new(4);
    let mut a: Vec<u32> = (0..6).collect();
    aligner.process(&mut a);
    assert_eq!(a, vec![0, 1, 2, 3]);
    let mut b: Vec<u32> = (6..9).collect();
    aligner.process(&mut b);
    assert_eq!(b, vec![4, 5, 6, 7]);
    assert_eq!(aligner.pending_len(), 1);
    let mut c: Vec<u32> = vec![9];
    aligner.process(&mut c);
    assert!(c.is_empty());
    assert_eq!(aligner.pending_len(), 2);
}
