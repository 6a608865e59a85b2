//! Absolute pitches and reference-pitch expressions.
//!
//! A [`Pitch`] is an absolute frequency, stored logarithmically as its
//! interval from the concert A4 of 440 Hz, in units of `2^-20` cent.
//! Raising a pitch by a [`Ratio`] is then exact integer addition.

use crate::key::PianoKey;
use crate::note::Note;
use crate::ratio::{
    fraction_units, rational_in_range, rational_to_units, spec_ratio_rejectable,
    spec_ratio_value, Ratio, RatioError, RatioErrorKind,
};
use crate::text::{all_digits, ascii_bytes, digits_val, find_byte, find_byte_in};
use vstd::prelude::*;
use vstd::string::StrSliceExecFns;

verus! {

/// Fixed-point units of one equally tempered semitone (100 cents).
pub const SEMITONE_UNITS: i64 = 104857600;

/// Largest admissible distance of a pitch from A4, in units: a thousand
/// times the MIDI range, far beyond anything audible, but small enough
/// that pitch arithmetic can never overflow.
pub const MAX_PITCH_UNITS: i64 = 0x1000_0000_0000_0000;

/// The pitch of an altered reference `<midi>+<ratio>` or `<midi>-<ratio>`:
/// `p` is the key's equal-tempered pitch raised (or, for `up == false`,
/// lowered) by some correct reading of the ratio text `t2`.
pub open spec fn altered_pitch_ok(t2: Seq<u8>, key: int, p: int, up: bool) -> bool {
    exists|d: int, dv: int|
        #[trigger] spec_ratio_value(t2, d, dv) && p == (key - 69) * SEMITONE_UNITS + (if up {
            d
        } else {
            -d
        })
}

/// The note part of a reference-pitch expression: a run of at most
/// twelve digits denoting a MIDI number of at most one million.
pub open spec fn note_part_ok(t: Seq<u8>, n: int) -> bool {
    &&& all_digits(t)
    &&& 1 <= t.len() <= 12
    &&& n == digits_val(t)
    &&& 0 <= n <= 1000000
}

/// `u` is a correct reading of the pitch expression `t`: the text ends in
/// `Hz` or `hz`, the prefix reads as a ratio `v` denoting the frequency
/// in Hz, and `u` is that frequency's interval above 440 Hz: `v` less a
/// bracketed logarithm of 440.
pub open spec fn spec_pitch_value(t: Seq<u8>, u: int) -> bool {
    &&& t.len() >= 2
    &&& t[t.len() - 1] == 122
    &&& (t[t.len() - 2] == 72 || t[t.len() - 2] == 104)
    &&& exists|v: int, dv: int, c: int|
        #![trigger spec_ratio_value(t.subrange(0, t.len() - 2), v, dv), fraction_units(440, 1, c)]
        spec_ratio_value(t.subrange(0, t.len() - 2), v, dv) && fraction_units(440, 1, c) && u
            == v - c
}

/// An absolute frequency, stored as its interval from A4 = 440 Hz in
/// units of `2^-20` cent.
#[derive(Clone, Copy, Debug, PartialEq, Eq, Structural)]
pub struct Pitch {
    units_from_a4: i64,
}

impl View for Pitch {
    type V = int;

    closed spec fn view(&self) -> int {
        self.units_from_a4 as int
    }
}

impl Pitch {
    /// The concert A4 of 440 Hz.
    pub fn concert_a4() -> (r: Pitch)
        ensures
            r@ == 0,
    {
        Pitch { units_from_a4: 0 }
    }

    /// The pitch a given interval above A4 = 440 Hz.
    pub fn from_fixed(units_from_a4: i64) -> (r: Pitch)
        ensures
            r@ == units_from_a4,
    {
        Pitch { units_from_a4 }
    }

    /// The interval of this pitch above A4 = 440 Hz, in units.
    pub fn as_fixed(&self) -> (r: i64)
        ensures
            r == self@,
    {
        self.units_from_a4
    }

    /// Raises the pitch by an interval.
    pub fn raised_by(&self, interval: &Ratio) -> (r: Pitch)
        requires
            i64::MIN <= self@ + interval@ <= i64::MAX,
        ensures
            r@ == self@ + interval@,
    {
        Pitch { units_from_a4: self.units_from_a4 + interval.as_fixed() }
    }

    /// Lowers the pitch by an interval.
    pub fn lowered_by(&self, interval: &Ratio) -> (r: Pitch)
        requires
            i64::MIN <= self@ - interval@ <= i64::MAX,
        ensures
            r@ == self@ - interval@,
    {
        Pitch { units_from_a4: self.units_from_a4 - interval.as_fixed() }
    }

    /// Parses a pitch expression `<ratio>Hz` or `<ratio>hz`, where the
    /// prefix is any ratio syntax denoting the frequency in Hz (`"440Hz"`,
    /// `"3/2Hz"`).  The pitch is that frequency's interval above 440 Hz,
    /// computed through the logarithm kernel.  Rejection happens exactly
    /// when the text is not ASCII, the suffix is missing, or the ratio
    /// grammar rejects the prefix.
    pub fn parse(s: &str) -> (r: Result<Pitch, RatioError>)
        ensures
            match r {
                Ok(p) => {
                    &&& vstd::string::is_ascii(s)
                    &&& spec_pitch_value(ascii_bytes(s@), p@)
                    &&& -4214436659200 <= p@ <= 4214436659200
                },
                Err(e) => e.offending@ == s@ || (2 <= s@.len() && e.offending@ == s@.subrange(
                    0,
                    s@.len() - 2,
                )),
            },
            ({
                let t = ascii_bytes(s@);
                vstd::string::is_ascii(s) && r is Err ==> !(t.len() >= 2 && t[t.len() - 1]
                    == 122 && (t[t.len() - 2] == 72 || t[t.len() - 2] == 104))
                    || spec_ratio_rejectable(t.subrange(0, t.len() - 2))
            }),
    {
        if !s.is_ascii() {
            return Err(
                RatioError { kind: RatioErrorKind::NotAscii, offending: s.to_owned() },
            );
        }
        let v = s.as_bytes_vec();
        proof {
            vstd::string::is_ascii_spec_bytes(s);
            assert(v@ =~= ascii_bytes(s@));
        }
        let len = v.len();
        // The suffix must read "Hz" or "hz".
        if len < 2 || !(v[len - 1] == 122 && (v[len - 2] == 72 || v[len - 2] == 104)) {
            return Err(
                RatioError { kind: RatioErrorKind::Malformed, offending: s.to_owned() },
            );
        }
        let prefix = s.substring_ascii(0, len - 2);
        proof {
            assert(ascii_bytes(prefix@) =~= ascii_bytes(s@).subrange(0, s@.len() - 2));
        }
        let pr = match Ratio::parse(prefix) {
            Ok(pr) => pr,
            Err(e) => {
                return Err(e);
            },
        };
        let c440 = match rational_to_units(440, 1) {
            Ok(c) => c,
            Err(_) => {
                proof {
                    assert(rational_in_range(440, 1)) by {
                        assert(1int < 440 * 65536) by (nonlinear_arith);
                    }
                    assert(false);
                }
                0
            },
        };
        let units = pr.ratio.as_fixed() - c440;
        proof {
            assert(spec_pitch_value(ascii_bytes(s@), units as int)) by {
                let t = ascii_bytes(s@);
                assert(spec_ratio_value(
                    t.subrange(0, t.len() - 2),
                    pr.ratio@,
                    pr.divisions as int,
                ));
                assert(fraction_units(440, 1, c440 as int));
            }
        }
        Ok(Pitch::from_fixed(units))
    }
}

impl Ratio {
    /// The interval from pitch `a` up to pitch `b`.
    pub fn between_pitches(a: &Pitch, b: &Pitch) -> (r: Ratio)
        requires
            i64::MIN <= b@ - a@ <= i64::MAX,
        ensures
            r@ == b@ - a@,
    {
        Ratio::from_fixed((b.as_fixed() - a.as_fixed()) as i64)
    }
}

/// The binding of one concrete key to one concrete pitch: the anchor from
/// which a key map positions a whole tuning.
#[derive(Clone, Copy, Debug, PartialEq, Eq, Structural)]
pub struct ReferencePitch {
    key: PianoKey,
    pitch: Pitch,
}

impl ReferencePitch {
    /// The anchored key, for use in contracts.
    pub closed spec fn spec_key(&self) -> PianoKey {
        self.key
    }

    /// The anchored pitch, for use in contracts.
    pub closed spec fn spec_pitch(&self) -> Pitch {
        self.pitch
    }

    /// The reference sounding the note at its twelve-tone equal-tempered
    /// pitch relative to A4 = 440 Hz.
    pub fn from_note(note: Note) -> (r: ReferencePitch)
        requires
            -1000000 <= note@ <= 1000000,
        ensures
            r.spec_key()@ == note@,
            r.spec_pitch()@ == (note@ - 69) * SEMITONE_UNITS,
    {
        let units = (note.midi_number() as i64 - 69) * SEMITONE_UNITS;
        ReferencePitch {
            key: note.as_piano_key(),
            pitch: Pitch::from_fixed(units),
        }
    }

    /// A reference binding the given key to the given pitch.
    pub fn from_key_and_pitch(key: PianoKey, pitch: Pitch) -> (r: ReferencePitch)
        ensures
            r.spec_key() == key,
            r.spec_pitch() == pitch,
    {
        ReferencePitch { key, pitch }
    }

    /// The anchored key.
    pub fn key(&self) -> (r: PianoKey)
        ensures
            r == self.spec_key(),
    {
        self.key
    }

    /// The pitch the anchored key sounds at.
    pub fn pitch(&self) -> (r: Pitch)
        ensures
            r == self.spec_pitch(),
    {
        self.pitch
    }

    /// Parses a reference-pitch expression.  The accepted forms are
    /// `<midi>` (the note at its equal-tempered pitch), `<midi>@<pitch>`
    /// (the key bound directly to an explicit frequency such as `440Hz`),
    /// and `<midi>+<ratio>` / `<midi>-<ratio>` (the note's equal-tempered
    /// pitch altered up or down by an interval).  Each form's key and
    /// pitch are pinned exactly below.
    #[verifier::rlimit(50)]
    pub fn from_str(s: &str) -> (r: Result<ReferencePitch, RatioError>)
        ensures
            r is Ok ==> {
                let rp = r->Ok_0;
                &&& -1000000 <= rp.spec_key()@ <= 1000000
                &&& -0x8000_0000_0000 <= rp.spec_pitch()@ <= 0x8000_0000_0000
            },
            // The bare form: the text is one run of digits.
            ({
                let t = ascii_bytes(s@);
                vstd::string::is_ascii(s) && find_byte(t, 64) == t.len() && find_byte(t, 43)
                    == t.len() && find_byte(t, 45) == t.len() ==> match r {
                    Ok(rp) => note_part_ok(t, rp.spec_key()@) && rp.spec_pitch()@ == (
                    rp.spec_key()@ - 69) * SEMITONE_UNITS,
                    Err(e) => !(all_digits(t) && 1 <= t.len() <= 12 && digits_val(t)
                        <= 1000000),
                }
            }),
            // The anchored form <midi>@<pitch>: the key is bound directly
            // to the given frequency.
            ({
                let t = ascii_bytes(s@);
                let ka = find_byte(t, 64);
                vstd::string::is_ascii(s) && ka < t.len() ==> match r {
                    Ok(rp) => note_part_ok(t.subrange(0, ka), rp.spec_key()@)
                        && spec_pitch_value(
                        t.subrange(ka + 1, t.len() as int),
                        rp.spec_pitch()@,
                    ),
                    Err(e) => {
                        let t2 = t.subrange(ka + 1, t.len() as int);
                        !(all_digits(t.subrange(0, ka)) && 1 <= ka <= 12 && digits_val(
                            t.subrange(0, ka),
                        ) <= 1000000) || !(t2.len() >= 2 && t2[t2.len() - 1] == 122 && (
                        t2[t2.len() - 2] == 72 || t2[t2.len() - 2] == 104))
                            || spec_ratio_rejectable(t2.subrange(0, t2.len() - 2))
                    },
                }
            }),
            // The altered forms <midi>+<ratio> and <midi>-<ratio>: the
            // note's equal-tempered pitch, raised or lowered by the ratio.
            ({
                let t = ascii_bytes(s@);
                let kp = find_byte(t, 43);
                let km = find_byte(t, 45);
                let up = kp < t.len();
                let ks = if up {
                    kp
                } else {
                    km
                };
                vstd::string::is_ascii(s) && find_byte(t, 64) == t.len() && (kp < t.len()
                    || km < t.len()) ==> match r {
                    Ok(rp) => note_part_ok(t.subrange(0, ks), rp.spec_key()@)
                        && altered_pitch_ok(
                        t.subrange(ks + 1, t.len() as int),
                        rp.spec_key()@,
                        rp.spec_pitch()@,
                        up,
                    ),
                    Err(e) => !(all_digits(t.subrange(0, ks)) && 1 <= ks <= 12 && digits_val(
                        t.subrange(0, ks),
                    ) <= 1000000) || spec_ratio_rejectable(
                        t.subrange(ks + 1, t.len() as int),
                    ),
                }
            }),
    {
        if !s.is_ascii() {
            return Err(
                RatioError { kind: RatioErrorKind::NotAscii, offending: s.to_owned() },
            );
        }
        let v = s.as_bytes_vec();
        proof {
            vstd::string::is_ascii_spec_bytes(s);
            assert(v@ =~= ascii_bytes(s@));
            assert(v@.subrange(0, v@.len() as int) == v@);
        }
        let len = v.len();
        let ka = find_byte_in(&v, 0, len, 64);
        if ka < len {
            // <midi>@<pitch>
            let n = match parse_note_number(&v, 0, ka) {
                Ok(n) => n,
                Err(k) => {
                    return Err(
                        RatioError { kind: k, offending: s.substring_ascii(0, ka).to_owned() },
                    );
                },
            };
            let sub = s.substring_ascii(ka + 1, len);
            proof {
                assert(ascii_bytes(sub@) =~= ascii_bytes(s@).subrange(
                    ka + 1,
                    s@.len() as int,
                ));
                let t2 = ascii_bytes(s@).subrange(ka + 1, s@.len() as int);
                assert(t2.subrange(0, t2.len() - 2) =~= ascii_bytes(sub@).subrange(
                    0,
                    sub@.len() - 2,
                ));
            }
            let pitch = match Pitch::parse(sub) {
                Ok(p) => p,
                Err(e) => {
                    return Err(e);
                },
            };
            return Ok(
                ReferencePitch { key: PianoKey::from_midi_number(n), pitch },
            );
        }
        let kp = find_byte_in(&v, 0, len, 43);
        let km = find_byte_in(&v, 0, len, 45);
        if kp < len || km < len {
            // <midi>+<ratio> or <midi>-<ratio>
            let up = kp < len;
            let ks = if up {
                kp
            } else {
                km
            };
            let n = match parse_note_number(&v, 0, ks) {
                Ok(n) => n,
                Err(k) => {
                    return Err(
                        RatioError { kind: k, offending: s.substring_ascii(0, ks).to_owned() },
                    );
                },
            };
            let sub = s.substring_ascii(ks + 1, len);
            proof {
                assert(ascii_bytes(sub@) =~= ascii_bytes(s@).subrange(
                    ks + 1,
                    s@.len() as int,
                ));
            }
            let pr = match Ratio::parse(sub) {
                Ok(pr) => pr,
                Err(e) => {
                    return Err(e);
                },
            };
            let delta = pr.ratio;
            let base = ReferencePitch::from_note(Note::from_midi_number(n));
            let pitch = if up {
                base.pitch().raised_by(&delta)
            } else {
                base.pitch().lowered_by(&delta)
            };
            let rp = ReferencePitch { key: PianoKey::from_midi_number(n), pitch };
            proof {
                let tt = ascii_bytes(s@);
                let upx = find_byte(tt, 43) < tt.len();
                let ksx: int = if upx {
                    find_byte(tt, 43)
                } else {
                    find_byte(tt, 45)
                };
                assert(upx == up);
                assert(ksx == ks as int);
                let tw = tt.subrange(ksx + 1, tt.len() as int);
                assert(tw =~= ascii_bytes(s@).subrange(ks + 1, s@.len() as int));
                assert(spec_ratio_value(tw, pr.ratio@, pr.divisions as int));
                assert(rp.spec_pitch()@ == (rp.spec_key()@ - 69) * SEMITONE_UNITS + (if upx {
                    pr.ratio@
                } else {
                    -(pr.ratio@)
                }));
                assert(altered_pitch_ok(tw, rp.spec_key()@, rp.spec_pitch()@, upx));
                assert(note_part_ok(tt.subrange(0, ksx), rp.spec_key()@));
            }
            return Ok(rp);
        }
        // <midi>
        proof {
            assert(v@.subrange(0, v@.len() as int) == v@);
        }
        match parse_note_number(&v, 0, len) {
            Ok(n) => Ok(ReferencePitch::from_note(Note::from_midi_number(n))),
            Err(k) => Err(RatioError { kind: k, offending: s.to_owned() }),
        }
    }
}

/// Parses `v[from..to]` as a note number: a run of digits denoting at
/// most one million.
fn parse_note_number(v: &Vec<u8>, from: usize, to: usize) -> (r: Result<i32, RatioErrorKind>)
    requires
        from <= to <= v@.len(),
    ensures
        ({
            let t = v@.subrange(from as int, to as int);
            match r {
                Ok(n) => all_digits(t) && 1 <= t.len() <= 12 && n == digits_val(t) && 0 <= n
                    <= 1000000,
                Err(k) => !(all_digits(t) && 1 <= t.len() <= 12 && digits_val(t) <= 1000000),
            }
        }),
{
    if to == from {
        return Err(RatioErrorKind::Malformed);
    }
    match crate::text::parse_digits(v, from, to, 12) {
        Some(n) => {
            if n > 1000000 {
                Err(RatioErrorKind::OutOfRange)
            } else {
                Ok(n as i32)
            }
        },
        None => Err(RatioErrorKind::Malformed),
    }
}

} // verus!
