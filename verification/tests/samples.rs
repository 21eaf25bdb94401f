use ferrotone::music::note;
use ferrotone::samples::midi_to_note_name;

#[test]
fn sample_names_in_midi_range() {
    assert_eq!(midi_to_note_name(69), "A4");
    assert_eq!(midi_to_note_name(61), "C#4");
    assert_eq!(midi_to_note_name(0), "C-1");
    assert_eq!(midi_to_note_name(11), "B-1");
    assert_eq!(midi_to_note_name(36), "C2");
    assert_eq!(midi_to_note_name(72), "C5");
    assert_eq!(midi_to_note_name(127), "G9");
}

#[test]
fn sample_names_beyond_midi_range() {
    assert_eq!(midi_to_note_name(128), "G#9");
    assert_eq!(midi_to_note_name(132), "C10");
    assert_eq!(midi_to_note_name(1234), "A#101");
    assert_eq!(midi_to_note_name(i32::MAX), "G178956969");
}

#[test]
fn sample_names_of_negative_octaves() {
    assert_eq!(midi_to_note_name(-12), "C-2");
    assert_eq!(midi_to_note_name(-120), "C-11");
    assert_eq!(midi_to_note_name(-2147483640), "C-178956971");
}

#[test]
fn sample_names_agree_with_note_names() {
    for midi in 0..=127 {
        assert_eq!(midi_to_note_name(midi), note::midi_to_note_name(midi));
    }
}
