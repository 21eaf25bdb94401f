use ferrotone::music::transcriber::{NoteEvent, NoteEventType, NoteSegmenter};

/// Rounded MIDI note and deviation from its equal-tempered pitch in
/// thousandths of a cent, for a frequency in hertz.
fn observe(frequency_hz: f32) -> (i32, i32) {
    if frequency_hz <= 0.0 {
        return (0, 0);
    }
    let midi = 69.0 + 12.0 * (frequency_hz / 440.0).log2();
    let note = midi.round();
    let nearest = 440.0 * 2.0_f32.powf((note - 69.0) / 12.0);
    let cents = 1200.0 * (frequency_hz / nearest).log2();
    (note as i32, (cents * 1000.0).round() as i32)
}

fn ppm(clarity: f32) -> i32 {
    (clarity * 1_000_000.0).round() as i32
}

fn feed(s: &mut NoteSegmenter, frequency_hz: f32, clarity: f32, voiced: bool, ts: u64) -> Vec<NoteEvent> {
    let (note, cents) = observe(frequency_hz);
    s.process(note, cents, ppm(clarity), voiced, ts)
}

#[test]
fn stable_note_held_long_enough() {
    let mut s = NoteSegmenter::new();
    s.min_note_duration_ms = 100;

    let events = feed(&mut s, 440.0, 0.9, true, 0);
    assert!(events.is_empty());

    let events = feed(&mut s, 440.1, 0.9, true, 150);
    assert_eq!(events.len(), 1);
    assert!(matches!(events[0].event_type, NoteEventType::Started));
    assert_eq!(events[0].note_name, "A4");

    let events = feed(&mut s, 0.0, 0.0, false, 250);
    assert!(events.is_empty());

    let events = feed(&mut s, 0.0, 0.0, false, 400);
    assert_eq!(events.len(), 1);
    assert!(matches!(events[0].event_type, NoteEventType::Ended));
    assert_eq!(events[0].note_name, "A4");
    assert!(events[0].duration_ms >= 100);
}

#[test]
fn note_transition_emits_ended_and_started() {
    let mut s = NoteSegmenter::new();
    s.min_note_duration_ms = 50;

    feed(&mut s, 440.0, 0.9, true, 0);

    let events = feed(&mut s, 440.0, 0.9, true, 100);
    assert_eq!(events.len(), 1);
    assert!(matches!(events[0].event_type, NoteEventType::Started));

    let events = feed(&mut s, 523.25, 0.9, true, 200);
    assert_eq!(events.len(), 1);
    assert!(matches!(events[0].event_type, NoteEventType::Ended));
    assert_eq!(events[0].note_name, "A4");

    let events = feed(&mut s, 523.25, 0.9, true, 300);
    assert_eq!(events.len(), 1);
    assert!(matches!(events[0].event_type, NoteEventType::Started));
    assert_eq!(events[0].note_name, "C5");
}

#[test]
fn brief_glissando_absorbed_then_final_note_confirms() {
    let mut s = NoteSegmenter::new();
    s.min_note_duration_ms = 100;

    feed(&mut s, 440.0, 0.9, true, 0);

    let events = feed(&mut s, 466.16, 0.9, true, 60);
    assert!(events.is_empty());

    let events = feed(&mut s, 523.25, 0.9, true, 120);
    assert!(events.is_empty());

    let events = feed(&mut s, 523.25, 0.9, true, 250);
    assert_eq!(events.len(), 1);
    assert!(matches!(events[0].event_type, NoteEventType::Started));
    assert_eq!(events[0].note_name, "C5");
}

#[test]
fn short_note_discarded() {
    let mut s = NoteSegmenter::new();
    s.min_note_duration_ms = 200;

    feed(&mut s, 440.0, 0.9, true, 0);

    let events = s.flush(150);
    assert!(events.is_empty());
}

#[test]
fn silence_held_briefly_resumes_note() {
    let mut s = NoteSegmenter::new();
    s.hold_silence_ms = 80;
    s.min_note_duration_ms = 50;

    feed(&mut s, 440.0, 0.9, true, 0);

    let events = feed(&mut s, 440.0, 0.9, true, 100);
    assert_eq!(events.len(), 1);

    let events = feed(&mut s, 0.0, 0.0, false, 150);
    assert!(events.is_empty());

    let events = feed(&mut s, 440.0, 0.9, true, 180);
    assert!(events.is_empty());

    let events = feed(&mut s, 440.0, 0.9, true, 300);
    assert!(events.is_empty());

    let events = feed(&mut s, 0.0, 0.0, false, 400);
    assert!(events.is_empty());

    let events = feed(&mut s, 0.0, 0.0, false, 500);
    assert_eq!(events.len(), 1);
    assert!(matches!(events[0].event_type, NoteEventType::Ended));
}

#[test]
fn flush_ends_active_note() {
    let mut s = NoteSegmenter::new();
    s.min_note_duration_ms = 50;

    feed(&mut s, 440.0, 0.9, true, 0);
    feed(&mut s, 440.0, 0.9, true, 100);

    let events = s.flush(200);
    assert_eq!(events.len(), 1);
    assert!(matches!(events[0].event_type, NoteEventType::Ended));
    assert_eq!(events[0].note_name, "A4");
}

#[test]
fn reset_clears_state() {
    let mut s = NoteSegmenter::new();
    s.min_note_duration_ms = 50;

    feed(&mut s, 440.0, 0.9, true, 0);
    feed(&mut s, 440.0, 0.9, true, 100);

    s.reset();

    let events = feed(&mut s, 523.25, 0.9, true, 200);
    assert!(events.is_empty());

    let events = feed(&mut s, 523.25, 0.9, true, 300);
    assert_eq!(events.len(), 1);
    assert!(matches!(events[0].event_type, NoteEventType::Started));
    assert_eq!(events[0].note_name, "C5");
}

#[test]
fn unvoiced_start_no_event() {
    let mut s = NoteSegmenter::new();
    let events = feed(&mut s, 440.0, 0.0, false, 0);
    assert!(events.is_empty());
}

#[test]
fn silence_duration_accumulates() {
    let mut s = NoteSegmenter::new();
    s.hold_silence_ms = 100;
    s.min_note_duration_ms = 50;

    feed(&mut s, 440.0, 0.9, true, 0);
    feed(&mut s, 440.0, 0.9, true, 100);

    let events = feed(&mut s, 0.0, 0.0, false, 180);
    assert!(events.is_empty());

    let events = feed(&mut s, 0.0, 0.0, false, 300);
    assert_eq!(events.len(), 1);
    assert!(matches!(events[0].event_type, NoteEventType::Ended));
    assert_eq!(events[0].note_name, "A4");
}

#[test]
fn segmenter_defaults() {
    let s = NoteSegmenter::new();
    assert_eq!(s.min_note_duration_ms, 120);
    assert_eq!(s.hold_silence_ms, 80);
    assert_eq!(s.note_transition_millicents, 40_000);
    let d = NoteSegmenter::default();
    assert_eq!(d.min_note_duration_ms, 120);
}

#[test]
fn events_report_means_and_durations() {
    let mut s = NoteSegmenter::new();
    s.min_note_duration_ms = 100;
    assert!(s.process(69, 1_000, 800_000, true, 0).is_empty());
    let started = s.process(69, 3_000, 900_000, true, 100);
    assert_eq!(started.len(), 1);
    assert_eq!(started[0].event_type, NoteEventType::Started);
    assert_eq!(started[0].midi, 69);
    assert_eq!(started[0].cents_deviation, 2_000);
    assert_eq!(started[0].clarity, 850_000);
    assert_eq!(started[0].duration_ms, 0);
    assert_eq!(started[0].timestamp_ms, 100);
    assert!(s.process(69, -7_000, 900_000, true, 160).is_empty());
    let ended = s.flush(170);
    assert_eq!(ended.len(), 1);
    assert_eq!(ended[0].event_type, NoteEventType::Ended);
    // (1000 + 3000 - 7000) / 3 rounds toward zero.
    assert_eq!(ended[0].cents_deviation, -1_000);
    assert_eq!(ended[0].clarity, 866_666);
    assert_eq!(ended[0].duration_ms, 160);
    assert_eq!(ended[0].timestamp_ms, 170);
}

#[test]
fn large_deviation_starts_new_note() {
    let mut s = NoteSegmenter::new();
    s.min_note_duration_ms = 50;
    s.process(69, 0, 900_000, true, 0);
    assert_eq!(s.process(69, 0, 900_000, true, 60).len(), 1);
    // 45 cents from the mean splits the note even with the same name.
    let ended = s.process(69, 45_000, 900_000, true, 120);
    assert_eq!(ended.len(), 1);
    assert_eq!(ended[0].event_type, NoteEventType::Ended);
    assert_eq!(ended[0].duration_ms, 60);
    // Exactly 40 cents away does not split.
    assert!(s.process(69, 5_000, 900_000, true, 130).is_empty());
}

#[test]
fn out_of_range_notes_share_a_name() {
    let mut s = NoteSegmenter::new();
    s.min_note_duration_ms = 10;
    s.process(-5, 0, 900_000, true, 0);
    let started = s.process(300, 0, 900_000, true, 20);
    assert_eq!(started.len(), 1);
    assert_eq!(started[0].note_name, "?");
    assert_eq!(started[0].midi, 0);
}

#[test]
fn silence_with_zero_clarity_does_not_open_note() {
    let mut s = NoteSegmenter::new();
    s.min_note_duration_ms = 10;
    assert!(s.process(69, 0, 0, true, 0).is_empty());
    assert!(s.process(69, 0, 900_000, true, 50).is_empty());
    assert_eq!(s.process(69, 0, 900_000, true, 60).len(), 1);
}

#[test]
fn started_and_ended_alternate_with_matching_names() {
    let mut s = NoteSegmenter::new();
    s.min_note_duration_ms = 40;
    s.hold_silence_ms = 30;
    let frames: Vec<(i32, bool, u64)> = vec![
        (60, true, 0),
        (60, true, 50),
        (62, true, 100),
        (62, true, 150),
        (62, false, 160),
        (62, false, 200),
        (64, true, 210),
        (64, true, 260),
        (65, true, 270),
    ];
    let mut all = Vec::new();
    for (note, voiced, ts) in frames {
        all.extend(s.process(note, 0, 900_000, voiced, ts));
    }
    all.extend(s.flush(300));
    let kinds: Vec<NoteEventType> = all.iter().map(|e| e.event_type).collect();
    assert_eq!(
        kinds,
        vec![
            NoteEventType::Started,
            NoteEventType::Ended,
            NoteEventType::Started,
            NoteEventType::Ended,
            NoteEventType::Started,
            NoteEventType::Ended,
        ]
    );
    for pair in all.chunks(2) {
        assert_eq!(pair[0].note_name, pair[1].note_name);
    }
    assert_eq!(all[0].note_name, "C4");
    assert_eq!(all[2].note_name, "D4");
    assert_eq!(all[4].note_name, "E4");
}

#[test]
fn event_type_labels() {
    assert_eq!(NoteEventType::Started.label(), "started");
    assert_eq!(NoteEventType::Ended.label(), "ended");
}

#[test]
fn configured_segmenter_reports_transition() {
    let mut s = NoteSegmenter::with_settings(50, 80, 40_000);
    assert_eq!(s.min_note_duration_ms, 50);
    assert_eq!(s.hold_silence_ms, 80);
    assert!(feed(&mut s, 440.0, 0.9, true, 0).is_empty());
    let started = feed(&mut s, 440.0, 0.9, true, 100);
    assert_eq!(started.len(), 1);
    assert_eq!(started[0].note_name, "A4");
    let ended = feed(&mut s, 523.25, 0.9, true, 200);
    assert_eq!(ended.len(), 1);
    assert_eq!(ended[0].event_type, NoteEventType::Ended);
    assert_eq!(ended[0].note_name, "A4");
    assert_eq!(ended[0].midi, 69);
    assert_eq!(ended[0].duration_ms, 100);
    assert_eq!(ended[0].timestamp_ms, 200);
    let started = feed(&mut s, 523.25, 0.9, true, 300);
    assert_eq!(started.len(), 1);
    assert_eq!(started[0].event_type, NoteEventType::Started);
    assert_eq!(started[0].note_name, "C5");
    assert_eq!(started[0].midi, 72);
    assert_eq!(started[0].duration_ms, 0);
    assert_eq!(started[0].timestamp_ms, 300);
}

#[test]
fn setters_change_settings_and_keep_note() {
    let mut s = NoteSegmenter::new();
    s.set_min_note_duration_ms(50);
    s.set_hold_silence_ms(100);
    s.set_note_transition_millicents(30_000);
    assert_eq!(s.min_note_duration_ms, 50);
    assert_eq!(s.hold_silence_ms, 100);
    assert_eq!(s.note_transition_millicents, 30_000);
    feed(&mut s, 440.0, 0.9, true, 0);
    assert_eq!(feed(&mut s, 440.0, 0.9, true, 100).len(), 1);
    let ended = s.flush(200);
    assert_eq!(ended.len(), 1);
    assert_eq!(ended[0].midi, 69);
    assert_eq!(ended[0].duration_ms, 100);
    assert_eq!(ended[0].timestamp_ms, 200);
    assert_eq!(ended[0].cents_deviation, 0);
    assert_eq!(ended[0].clarity, 900_000);
    assert!(s.flush(300).is_empty());
}

#[test]
fn events_report_segment_means() {
    let mut s = NoteSegmenter::with_settings(100, 80, 40_000);
    assert!(s.process(69, 1_000, 900_000, true, 0).is_empty());
    // An unvoiced frame within the hold adds nothing to the means.
    assert!(s.process(69, 0, 0, false, 40).is_empty());
    assert!(s.process(69, 3_000, 800_000, true, 60).is_empty());
    let events = s.process(69, -1_000, 700_000, true, 120);
    assert_eq!(events.len(), 1);
    assert!(matches!(events[0].event_type, NoteEventType::Started));
    assert_eq!(events[0].note_name, "A4");
    assert_eq!(events[0].midi, 69);
    assert_eq!(events[0].clarity, 800_000);
    assert_eq!(events[0].cents_deviation, 1_000);
    // The next note closes this one with the means of its voiced frames.
    assert!(s.process(69, 5_000, 600_000, true, 150).is_empty());
    let events = s.process(71, 0, 900_000, true, 200);
    assert_eq!(events.len(), 1);
    assert!(matches!(events[0].event_type, NoteEventType::Ended));
    assert_eq!(events[0].note_name, "A4");
    assert_eq!(events[0].clarity, 750_000);
    assert_eq!(events[0].cents_deviation, 2_000);
    assert_eq!(events[0].duration_ms, 150);
}
