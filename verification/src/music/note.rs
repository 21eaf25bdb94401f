//! Names of MIDI notes.
use vstd::prelude::*;

verus! {

/// Highest MIDI note number that has a name.
pub const MAX_NAMED_MIDI: i32 = 127;

/// The pitch-class label of a pitch class `pc` in `0..12`
/// ("C", "C#", "D", ..., "B").
pub open spec fn note_label(pc: int) -> Seq<char> {
    if pc == 0 {
        seq!['C']
    } else if pc == 1 {
        seq!['C', '#']
    } else if pc == 2 {
        seq!['D']
    } else if pc == 3 {
        seq!['D', '#']
    } else if pc == 4 {
        seq!['E']
    } else if pc == 5 {
        seq!['F']
    } else if pc == 6 {
        seq!['F', '#']
    } else if pc == 7 {
        seq!['G']
    } else if pc == 8 {
        seq!['G', '#']
    } else if pc == 9 {
        seq!['A']
    } else if pc == 10 {
        seq!['A', '#']
    } else {
        seq!['B']
    }
}

/// Decimal text of an octave number in `-1..=9`.
pub open spec fn octave_text(octave: int) -> Seq<char> {
    if octave < 0 {
        seq!['-', '1']
    } else {
        seq![(48 + octave) as char]
    }
}

/// The name of MIDI note `midi`: label followed by octave (MIDI 60 is
/// "C4"), or "?" outside `0..=127`.
pub open spec fn spec_note_name(midi: int) -> Seq<char> {
    if 0 <= midi <= 127 {
        note_label(midi % 12) + octave_text(midi / 12 - 1)
    } else {
        seq!['?']
    }
}

/// The note that a name stands for: the MIDI number of a note name, `-1`
/// for "?" and any other text.
pub open spec fn note_key(midi: int) -> int {
    if 0 <= midi <= 127 {
        midi
    } else {
        -1
    }
}

/// Pitch class of a label letter and its sharp sign.
pub open spec fn pitch_class_of(letter: char, sharp: bool) -> int {
    let base: int = if letter == 'C' {
        0
    } else if letter == 'D' {
        2
    } else if letter == 'E' {
        4
    } else if letter == 'F' {
        5
    } else if letter == 'G' {
        7
    } else if letter == 'A' {
        9
    } else {
        11
    };
    if sharp {
        base + 1
    } else {
        base
    }
}

/// Reads a note name back into its MIDI number (`-1` for "?").
pub open spec fn decode_note_name(name: Seq<char>) -> int {
    if name.len() == 0 || name[0] == '?' {
        -1
    } else {
        let sharp = name.len() >= 2 && name[1] == '#';
        let rest = if sharp {
            name.skip(2)
        } else {
            name.skip(1)
        };
        let octave: int = if rest.len() >= 1 && rest[0] == '-' {
            -1
        } else {
            (rest[0] as int) - 48
        };
        (octave + 1) * 12 + pitch_class_of(name[0], sharp)
    }
}

proof fn lemma_decode_note_name(midi: int)
    ensures
        decode_note_name(spec_note_name(midi)) == note_key(midi),
{
    if 0 <= midi <= 127 {
        let pc = midi % 12;
        let octave = midi / 12 - 1;
        let name = spec_note_name(midi);
        let label = note_label(pc);
        let oct = octave_text(octave);
        assert(name == label + oct);
        assert(midi == (octave + 1) * 12 + pc);
        if octave < 0 {
            assert(oct =~= seq!['-', '1']);
        } else {
            assert(oct =~= seq![(48 + octave) as char]);
        }
        if label.len() == 1 {
            assert(name.skip(1) =~= oct);
        } else {
            assert(name.skip(2) =~= oct);
        }
    } else {
        assert(spec_note_name(midi) =~= seq!['?']);
    }
}

/// Two MIDI numbers get the same name exactly when they are the same note
/// of `0..=127`, or both lie outside that range.
pub proof fn lemma_note_name_injective(a: int, b: int)
    ensures
        (spec_note_name(a) == spec_note_name(b)) <==> (note_key(a) == note_key(b)),
{
    lemma_decode_note_name(a);
    lemma_decode_note_name(b);
}

pub(crate) fn label_of(pc: i32) -> (s: &'static str)
    requires
        0 <= pc < 12,
    ensures
        s@ == note_label(pc as int),
{
    proof {
        reveal_strlit("C");
        reveal_strlit("C#");
        reveal_strlit("D");
        reveal_strlit("D#");
        reveal_strlit("E");
        reveal_strlit("F");
        reveal_strlit("F#");
        reveal_strlit("G");
        reveal_strlit("G#");
        reveal_strlit("A");
        reveal_strlit("A#");
        reveal_strlit("B");
    }
    if pc == 0 {
        "C"
    } else if pc == 1 {
        "C#"
    } else if pc == 2 {
        "D"
    } else if pc == 3 {
        "D#"
    } else if pc == 4 {
        "E"
    } else if pc == 5 {
        "F"
    } else if pc == 6 {
        "F#"
    } else if pc == 7 {
        "G"
    } else if pc == 8 {
        "G#"
    } else if pc == 9 {
        "A"
    } else if pc == 10 {
        "A#"
    } else {
        "B"
    }
}

fn octave_of(octave: i32) -> (s: &'static str)
    requires
        -1 <= octave <= 9,
    ensures
        s@ == octave_text(octave as int),
{
    proof {
        reveal_strlit("-1");
        reveal_strlit("0");
        reveal_strlit("1");
        reveal_strlit("2");
        reveal_strlit("3");
        reveal_strlit("4");
        reveal_strlit("5");
        reveal_strlit("6");
        reveal_strlit("7");
        reveal_strlit("8");
        reveal_strlit("9");
    }
    if octave < 0 {
        "-1"
    } else if octave == 0 {
        "0"
    } else if octave == 1 {
        "1"
    } else if octave == 2 {
        "2"
    } else if octave == 3 {
        "3"
    } else if octave == 4 {
        "4"
    } else if octave == 5 {
        "5"
    } else if octave == 6 {
        "6"
    } else if octave == 7 {
        "7"
    } else if octave == 8 {
        "8"
    } else {
        "9"
    }
}

/// Name of the MIDI note `midi` ("C4", "A#4", ...), or "?" when `midi` is
/// outside `0..=127`. `midi` is the note number already rounded to the
/// nearest integer.
pub fn midi_to_note_name(midi: i32) -> (name: String)
    ensures
        name@ == spec_note_name(midi as int),
{
    if midi < 0 || midi > MAX_NAMED_MIDI {
        proof {
            reveal_strlit("?");
        }
        return String::from_str("?");
    }
    let mut name = String::from_str(label_of(midi % 12));
    name.append(octave_of(midi / 12 - 1));
    name
}

} // verus!
