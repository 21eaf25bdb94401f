use ferrotone::pitch::dummy::DummyDetector;
use ferrotone::pitch::frame_timestamp_ms;

#[test]
fn dummy_returns_known_freq() {
    let mut detector = DummyDetector::new(440_000, 900_000, true);
    let frames = detector.process(&[0.0f32; 1024]);
    assert_eq!(frames.len(), 1);
    assert_eq!(frames[0].frequency_millihz, 440_000);
    assert_eq!(frames[0].clarity, 900_000);
    assert!(frames[0].voiced);
}

#[test]
fn dummy_returns_unvoiced() {
    let mut detector = DummyDetector::new(220_000, 100_000, false);
    let frames = detector.process(&[0.0f32; 512]);
    assert_eq!(frames.len(), 1);
    assert_eq!(frames[0].frequency_millihz, 220_000);
    assert!(!frames[0].voiced);
}

#[test]
fn dummy_reset_clears_frame_count() {
    let mut detector = DummyDetector::new(440_000, 900_000, true);
    let f1 = detector.process(&[0.0f32; 1024]);
    let f2 = detector.process(&[0.0f32; 1024]);
    assert!(f2[0].timestamp_ms > f1[0].timestamp_ms);
    detector.reset();
    let f3 = detector.process(&[0.0f32; 1024]);
    assert!((f3[0].timestamp_ms - 32) < 2);
}

#[test]
fn dummy_frames_are_32_ms_apart() {
    let mut detector = DummyDetector::new(1, 2, true);
    let stamps: Vec<u64> = (0..4).map(|_| detector.process::<u8>(&[])[0].timestamp_ms).collect();
    assert_eq!(stamps, vec![32, 64, 96, 128]);
}

#[test]
fn frame_timestamps_follow_buffers() {
    assert_eq!(frame_timestamp_ms(1, 1024, 48000), 21);
    assert_eq!(frame_timestamp_ms(3, 1024, 48000), 64);
    assert_eq!(frame_timestamp_ms(0, 1024, 48000), 1);
    assert_eq!(frame_timestamp_ms(1, 10, 48000), 1);
    assert_eq!(frame_timestamp_ms(2, 48000, 48000), 2000);
}
