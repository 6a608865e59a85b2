//! Symbolic notes: the twelve-tone pitch classes in MIDI numbering.

use crate::key::PianoKey;
use crate::math::{spec_floor_div, spec_floor_mod};
use crate::text::{char_digits, push_digits_u64};
use vstd::prelude::*;
use vstd::string::StringExecFns;

verus! {

/// A note of the twelve-tone system, identified by its MIDI number
/// (`69` is A4, the usual concert-pitch reference).
#[derive(Clone, Copy, Debug, PartialEq, Eq, Structural)]
pub struct Note {
    midi: i32,
}

impl View for Note {
    type V = int;

    closed spec fn view(&self) -> int {
        self.midi as int
    }
}

/// The letter label of pitch class `pc`, counting `0` as C up to `11` as B.
pub open spec fn spec_note_letter(pc: int) -> Seq<char> {
    if pc == 0 {
        seq!['C']
    } else if pc == 1 {
        seq!['C', '#']
    } else if pc == 2 {
        seq!['D']
    } else if pc == 3 {
        seq!['D', '#']
    } else if pc == 4 {
        seq!['E']
    } else if pc == 5 {
        seq!['F']
    } else if pc == 6 {
        seq!['F', '#']
    } else if pc == 7 {
        seq!['G']
    } else if pc == 8 {
        seq!['G', '#']
    } else if pc == 9 {
        seq!['A']
    } else if pc == 10 {
        seq!['A', '#']
    } else {
        seq!['B']
    }
}

/// The label of the note with MIDI number `n`: its pitch-class letter
/// followed by its octave number, MIDI note `0` lying in octave `-1`.
pub open spec fn spec_note_name(n: int) -> Seq<char> {
    let octave = spec_floor_div(n, 12) - 1;
    spec_note_letter(spec_floor_mod(n, 12)) + (if octave < 0 {
        seq!['-'] + char_digits((-octave) as nat)
    } else {
        char_digits(octave as nat)
    })
}

impl Note {
    /// The note with the given MIDI number.
    pub fn from_midi_number(midi_number: i32) -> (r: Note)
        ensures
            r@ == midi_number,
    {
        Note { midi: midi_number }
    }

    /// The MIDI number of the note.
    pub fn midi_number(&self) -> (r: i32)
        ensures
            r == self@,
    {
        self.midi
    }

    /// The piano key carrying this note in the standard layout.
    pub fn as_piano_key(&self) -> (r: PianoKey)
        ensures
            r@ == self@,
    {
        PianoKey::from_midi_number(self.midi)
    }

    /// A label for the note: its letter name and octave, e.g. `"A4"`,
    /// `"C#5"` or `"F#-1"`.
    pub fn name(&self) -> (s: String)
        ensures
            s@ == spec_note_name(self@),
    {
        let pc = crate::math::floor_mod(self.midi as i64, 12) as usize;
        let octave = crate::math::floor_div(self.midi as i64, 12) - 1;
        let mut s = String::new();
        proof {
            reveal_strlit("C");
            reveal_strlit("C#");
            reveal_strlit("D");
            reveal_strlit("D#");
            reveal_strlit("E");
            reveal_strlit("F");
            reveal_strlit("F#");
            reveal_strlit("G");
            reveal_strlit("G#");
            reveal_strlit("A");
            reveal_strlit("A#");
            reveal_strlit("B");
            reveal_strlit("-");
        }
        match pc {
            0 => s.append("C"),
            1 => s.append("C#"),
            2 => s.append("D"),
            3 => s.append("D#"),
            4 => s.append("E"),
            5 => s.append("F"),
            6 => s.append("F#"),
            7 => s.append("G"),
            8 => s.append("G#"),
            9 => s.append("A"),
            10 => s.append("A#"),
            _ => s.append("B"),
        }
        proof {
            assert(s@ =~= spec_note_letter(spec_floor_mod(self@, 12)));
        }
        if octave < 0 {
            s.append("-");
            push_digits_u64(&mut s, (-octave) as u64);
        } else {
            push_digits_u64(&mut s, octave as u64);
        }
        proof {
            assert(s@ =~= spec_note_name(self@));
        }
        s
    }
}

} // verus!
