//! Discrete piano keys in MIDI-compatible numbering.

use vstd::prelude::*;

verus! {

/// A physical or virtual piano key, identified by its MIDI number.  The
/// numbering extends below `0` and above `127`.
#[derive(Clone, Copy, Debug, PartialEq, Eq, Structural)]
pub struct PianoKey {
    midi: i32,
}

impl View for PianoKey {
    type V = int;

    closed spec fn view(&self) -> int {
        self.midi as int
    }
}

impl PianoKey {
    /// The key with the given MIDI number.
    pub fn from_midi_number(midi_number: i32) -> (r: PianoKey)
        ensures
            r@ == midi_number,
    {
        PianoKey { midi: midi_number }
    }

    /// The MIDI number of the key.
    pub fn midi_number(&self) -> (r: i32)
        ensures
            r == self@,
    {
        self.midi
    }

    /// How many keys lie before `other`, counting from this key: the
    /// directed distance `other - self`.
    pub fn num_keys_before(&self, other: PianoKey) -> (r: i32)
        requires
            i32::MIN <= other@ - self@ <= i32::MAX,
        ensures
            r == other@ - self@,
    {
        other.midi - self.midi
    }

    /// The key a given number of steps above this one.
    pub fn plus_steps(&self, steps: i32) -> (r: PianoKey)
        requires
            i32::MIN <= self@ + steps <= i32::MAX,
        ensures
            r@ == self@ + steps,
    {
        PianoKey { midi: self.midi + steps }
    }
}

} // verus!
