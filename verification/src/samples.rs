//! Names of the files in the vocal sample library.
use vstd::prelude::*;
use crate::music::note::{note_label, label_of, spec_note_name, octave_text};

verus! {

/// The character of decimal digit `d` (`0..=9`).
pub open spec fn digit_char(d: int) -> char {
    (48 + d) as char
}

/// Decimal text of a natural number, without leading zeros.
pub open spec fn decimal(n: nat) -> Seq<char>
    decreases n,
{
    if n < 10 {
        seq![digit_char(n as int)]
    } else {
        decimal(n / 10).push(digit_char((n % 10) as int))
    }
}

/// Decimal text of an integer, with a leading '-' when negative.
pub open spec fn signed_decimal(n: int) -> Seq<char> {
    if n < 0 {
        seq!['-'] + decimal((-n) as nat)
    } else {
        decimal(n as nat)
    }
}

/// A sample file's note name: the pitch-class label of `midi` followed by
/// its octave `midi / 12 - 1`, for any note number (MIDI 60 is "C4", 128 is
/// "G#9", -12 is "C-2").
pub open spec fn sample_note_name(midi: int) -> Seq<char> {
    note_label(midi % 12) + signed_decimal(midi / 12 - 1)
}

fn digit_of(d: u32) -> (s: &'static str)
    requires
        d < 10,
    ensures
        s@ == seq![digit_char(d as int)],
{
    proof {
        reveal_strlit("0");
        reveal_strlit("1");
        reveal_strlit("2");
        reveal_strlit("3");
        reveal_strlit("4");
        reveal_strlit("5");
        reveal_strlit("6");
        reveal_strlit("7");
        reveal_strlit("8");
        reveal_strlit("9");
    }
    if d == 0 {
        "0"
    } else if d == 1 {
        "1"
    } else if d == 2 {
        "2"
    } else if d == 3 {
        "3"
    } else if d == 4 {
        "4"
    } else if d == 5 {
        "5"
    } else if d == 6 {
        "6"
    } else if d == 7 {
        "7"
    } else if d == 8 {
        "8"
    } else {
        "9"
    }
}

fn append_decimal(s: &mut String, n: u32)
    ensures
        final(s)@ == old(s)@ + decimal(n as nat),
    decreases n,
{
    if n >= 10 {
        append_decimal(s, n / 10);
    }
    s.append(digit_of(n % 10));
    proof {
        if n >= 10 {
            assert(decimal(n as nat) == decimal((n / 10) as nat).push(digit_char((n % 10) as int)));
        }
    }
    assert(final(s)@ =~= old(s)@ + decimal(n as nat));
}

/// Name of the sample file for MIDI note `midi` (label and octave, for any
/// note number that is not negative or is a multiple of 12).
pub fn midi_to_note_name(midi: i32) -> (name: String)
    requires
        midi >= 0 || midi % 12 == 0,
    ensures
        name@ == sample_note_name(midi as int),
{
    let (pc, octave): (i32, i32) = if midi >= 0 {
        (midi % 12, midi / 12 - 1)
    } else {
        assert(midi != i32::MIN);
        let q = (-midi) / 12;
        assert(midi / 12 == -q && midi % 12 == 0) by (nonlinear_arith)
            requires
                midi < 0,
                midi % 12 == 0,
                q == (-midi) / 12,
        ;
        (0, -q - 1)
    };
    let mut name = String::from_str(label_of(pc));
    if octave < 0 {
        proof {
            reveal_strlit("-");
        }
        name.append("-");
        append_decimal(&mut name, (-octave) as u32);
        assert(name@ =~= note_label(pc as int) + (seq!['-'] + decimal((-octave) as nat)));
    } else {
        append_decimal(&mut name, octave as u32);
    }
    name
}

/// On the MIDI range the sample names are the note names.
pub proof fn lemma_sample_names_match_note_names(midi: int)
    requires
        0 <= midi <= 127,
    ensures
        sample_note_name(midi) == spec_note_name(midi),
{
    let octave = midi / 12 - 1;
    if octave < 0 {
        assert(decimal(1) == seq![digit_char(1)]);
        assert(signed_decimal(octave) =~= octave_text(octave));
    } else {
        assert(decimal(octave as nat) == seq![digit_char(octave)]);
        assert(signed_decimal(octave) =~= octave_text(octave));
    }
}

/// The number that a string of decimal digits stands for.
pub open spec fn digits_value(s: Seq<char>) -> int
    decreases s.len(),
{
    if s.len() == 0 {
        0
    } else {
        digits_value(s.drop_last()) * 10 + (s.last() as int - 48)
    }
}

/// The octave text of a sample name is the octave number in plain decimal:
/// only digits, no leading zero (but for 0 itself), and reading the digits
/// back gives the number.
pub proof fn lemma_decimal_reads_back(n: nat)
    ensures
        decimal(n).len() >= 1,
        forall|i: int| 0 <= i < decimal(n).len() ==> '0' <= #[trigger] decimal(n)[i] <= '9',
        decimal(n)[0] == '0' ==> n == 0,
        digits_value(decimal(n)) == n,
    decreases n,
{
    if n >= 10 {
        lemma_decimal_reads_back(n / 10);
        let head = decimal(n / 10);
        let d = decimal(n);
        assert(d == head.push(digit_char((n % 10) as int)));
        assert(d.drop_last() =~= head);
        assert(d[0] == head[0]);
        assert(d.last() as int == 48 + n % 10);
        assert(digits_value(d) == (n / 10) * 10 + n % 10);
        assert((n / 10) * 10 + n % 10 == n);
        assert forall|i: int| 0 <= i < d.len() implies '0' <= #[trigger] d[i] <= '9' by {
            if i < head.len() {
                assert(d[i] == head[i]);
            }
        }
    } else {
        assert(decimal(n).drop_last() =~= Seq::<char>::empty());
        assert(decimal(n).last() as int == 48 + n);
        assert(digits_value(decimal(n).drop_last()) == 0);
    }
}

} // verus!
