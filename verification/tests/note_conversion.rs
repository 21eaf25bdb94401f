use ferrotone::music::note::midi_to_note_name;

/// The rounded MIDI number of a fractional MIDI value.
fn rounded(midi: f32) -> i32 {
    midi.round() as i32
}

#[test]
fn midi_to_note_names_golden() {
    assert_eq!(midi_to_note_name(rounded(69.0)), "A4");
    assert_eq!(midi_to_note_name(rounded(60.0)), "C4");
    assert_eq!(midi_to_note_name(rounded(0.0)), "C-1");
    assert_eq!(midi_to_note_name(rounded(127.0)), "G9");
    assert_eq!(midi_to_note_name(rounded(70.0)), "A#4");
    assert_eq!(midi_to_note_name(rounded(61.0)), "C#4");
    assert_eq!(midi_to_note_name(rounded(100.0)), "E7");
    assert_eq!(midi_to_note_name(rounded(200.0)), "?");
}

#[test]
fn note_names_round_fractional_midi() {
    assert_eq!(midi_to_note_name(rounded(68.6)), "A4");
    assert_eq!(midi_to_note_name(rounded(69.4)), "A4");
    assert_eq!(midi_to_note_name(rounded(-0.4)), "C-1");
    assert_eq!(midi_to_note_name(rounded(127.4)), "G9");
}

#[test]
fn note_names_out_of_range_are_unknown() {
    assert_eq!(midi_to_note_name(-1), "?");
    assert_eq!(midi_to_note_name(128), "?");
    assert_eq!(midi_to_note_name(i32::MIN), "?");
    assert_eq!(midi_to_note_name(i32::MAX), "?");
}

#[test]
fn note_names_are_distinct_in_range() {
    let names: Vec<String> = (0..=127).map(midi_to_note_name).collect();
    for a in 0..names.len() {
        for b in (a + 1)..names.len() {
            assert_ne!(names[a], names[b], "MIDI {} and {} share a name", a, b);
        }
    }
    assert_eq!(names[11], "B-1");
    assert_eq!(names[12], "C0");
    assert_eq!(names[71], "B4");
}
