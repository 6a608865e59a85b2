//! The MIDI Tuning Standard encoder: turns a tuning into conformant
//! system-exclusive byte sequences.
//!
//! Every multi-byte field is emitted most significant byte first, as the
//! MTS specification mandates; each encoder states its exact byte layout
//! in its contract, including the checksum equation for the bulk dump.

use crate::key::PianoKey;
use crate::math::{floor_div, floor_mod, spec_floor_div, spec_floor_mod};
use crate::pitch::SEMITONE_UNITS;
use crate::ratio::Ratio;
use crate::scale::entries_wf;
use crate::tuning::{keymap_wf, scale_offset, spec_pitch_of, KeyMap, ScaleWithKeyMap};
use vstd::prelude::*;

verus! {

/// Why an MTS message could not be encoded.
#[derive(Clone, Copy, Debug, PartialEq, Eq, Structural)]
pub enum MtsError {
    /// A device id above `0x7f`.
    DeviceIdOutOfRange,
    /// A tuning program or bank number above `0x7f`.
    ProgramOutOfRange,
    /// A channel above `15`, or an empty channel range.
    ChannelOutOfRange,
    /// A correction too large for the message's data field.
    ValueOutOfRange,
}

/// The absolute equal-tempered semitone below the pitch `p` (given in
/// units above A4, MIDI note 69).
pub open spec fn mts_semitone(p: int) -> int {
    spec_floor_div(p + 69 * SEMITONE_UNITS, SEMITONE_UNITS as int)
}

/// The position of `p` above [`mts_semitone`], as a 14-bit fraction of a
/// semitone.
pub open spec fn mts_fraction(p: int) -> int {
    (spec_floor_mod(p + 69 * SEMITONE_UNITS, SEMITONE_UNITS as int) * 16384) / (
    SEMITONE_UNITS as int)
}

/// Whether the pitch lies in the range a bulk-dump entry can represent:
/// its semitone rounds into the MIDI note range.
pub open spec fn mts_in_range(p: int) -> bool {
    0 <= mts_semitone(p) <= 127
}

/// The three data bytes of one bulk-dump entry: semitone, then the 14-bit
/// fraction as MSB/LSB.  A pitch outside the representable range is
/// clamped to the nearest representable entry so the message stays
/// structurally valid.
pub open spec fn mts_entry(p: int) -> Seq<u8> {
    if mts_semitone(p) < 0 {
        seq![0u8, 0u8, 0u8]
    } else if mts_semitone(p) > 127 {
        seq![127u8, 127u8, 127u8]
    } else {
        seq![
            mts_semitone(p) as u8,
            (mts_fraction(p) / 128) as u8,
            (mts_fraction(p) % 128) as u8,
        ]
    }
}

/// The exclusive-or of all bytes of `s`.
pub open spec fn xor_seq(s: Seq<u8>) -> u8
    decreases s.len(),
{
    if s.len() == 0 {
        0u8
    } else {
        xor_seq(s.drop_last()) ^ s.last()
    }
}

/// How many of the keys `0 .. n` sound at a representable pitch.
pub open spec fn retuned_count(s: Seq<int>, km: KeyMap, n: int) -> int
    decreases n,
{
    if n <= 0 {
        0
    } else {
        retuned_count(s, km, n - 1) + if mts_in_range(spec_pitch_of(s, km, n - 1)) {
            1int
        } else {
            0int
        }
    }
}

/// Computes one bulk-dump entry for the pitch `p`.
fn mts_entry_exec(p: i64) -> (e: (u8, u8, u8))
    requires
        -600000000000000000 <= p <= 600000000000000000,
    ensures
        seq![e.0, e.1, e.2] == mts_entry(p as int),
        (e.0, e.1, e.2) == (
            mts_entry(p as int)[0],
            mts_entry(p as int)[1],
            mts_entry(p as int)[2],
        ),
        e.0 <= 0x7f && e.1 <= 0x7f && e.2 <= 0x7f,
{
    let abs_units = p + 69 * SEMITONE_UNITS;
    let note = floor_div(abs_units, SEMITONE_UNITS);
    if note < 0 {
        proof {
            assert(seq![0u8, 0u8, 0u8] =~= mts_entry(p as int));
        }
        (0, 0, 0)
    } else if note > 127 {
        proof {
            assert(seq![127u8, 127u8, 127u8] =~= mts_entry(p as int));
        }
        (127, 127, 127)
    } else {
        let m = floor_mod(abs_units, SEMITONE_UNITS);
        let f = (m * 16384) / SEMITONE_UNITS;
        proof {
            assert(m * 16384 >= 0) by (nonlinear_arith)
                requires
                    m >= 0,
            ;
            vstd::arithmetic::div_mod::lemma_multiply_divide_lt(
                m * 16384,
                SEMITONE_UNITS as int,
                16384,
            );
            assert(m * 16384 < SEMITONE_UNITS * 16384) by (nonlinear_arith)
                requires
                    0 <= m < SEMITONE_UNITS,
            ;
            vstd::arithmetic::div_mod::lemma_fundamental_div_mod(
                (m * 16384) as int,
                SEMITONE_UNITS as int,
            );
            assert(f >= 0);
            vstd::arithmetic::div_mod::lemma_fundamental_div_mod(f as int, 128);
            assert(seq![note as u8, (f / 128) as u8, (f % 128) as u8] =~= mts_entry(
                p as int,
            ));
        }
        (note as u8, (f / 128) as u8, (f % 128) as u8)
    }
}

/// A Single Note Tuning Change bulk dump: the full 128-key pitch table of
/// a tuning as one system-exclusive message, plus the partition of the
/// keys into retuned and out-of-range ones.
#[derive(Debug)]
pub struct SingleNoteTuningChangeMessage {
    bytes: Vec<u8>,
    retuned: Vec<PianoKey>,
    out_of_range: Vec<PianoKey>,
}

impl SingleNoteTuningChangeMessage {
    /// The encoded system-exclusive bytes.
    pub fn sysex_bytes(&self) -> (r: &Vec<u8>)
        ensures
            r@ == self.spec_bytes(),
    {
        &self.bytes
    }

    /// The keys whose pitch was representable and therefore retuned.
    pub fn retuned_notes(&self) -> (r: &Vec<PianoKey>)
        ensures
            r@ == self.spec_retuned(),
    {
        &self.retuned
    }

    /// The keys whose pitch was out of the representable range and was
    /// clamped.
    pub fn out_of_range_notes(&self) -> (r: &Vec<PianoKey>)
        ensures
            r@ == self.spec_out_of_range(),
    {
        &self.out_of_range
    }

    /// The encoded bytes, for use in contracts.
    pub closed spec fn spec_bytes(&self) -> Seq<u8> {
        self.bytes@
    }

    /// The retuned keys, for use in contracts.
    pub closed spec fn spec_retuned(&self) -> Seq<PianoKey> {
        self.retuned@
    }

    /// The clamped keys, for use in contracts.
    pub closed spec fn spec_out_of_range(&self) -> Seq<PianoKey> {
        self.out_of_range@
    }

    /// Encodes the 128-key pitch table of the given tuning as a bulk dump:
    /// header `F0 7F <device> 08 02 <program> 7F`, three data bytes per
    /// key, a checksum equal to the exclusive-or of everything from the
    /// device id through the last data byte, and the terminator `F7`.
    pub fn from_scale(
        tuning: ScaleWithKeyMap<'_>,
        device_id: u8,
        tuning_program: u8,
    ) -> (r: Result<SingleNoteTuningChangeMessage, MtsError>)
        requires
            tuning.valid(),
            -65000 <= tuning.key_map.root_key@ <= 65000,
        ensures
            ({
                let s = tuning.scale.spec_entries();
                let km = *tuning.key_map;
                match r {
                    Ok(msg) => {
                        &&& device_id <= 0x7f
                        &&& tuning_program <= 0x7f
                        &&& msg.spec_bytes().len() == 393
                        &&& msg.spec_bytes()[0] == 0xf0
                        &&& msg.spec_bytes()[1] == 0x7f
                        &&& msg.spec_bytes()[2] == device_id
                        &&& msg.spec_bytes()[3] == 0x08
                        &&& msg.spec_bytes()[4] == 0x02
                        &&& msg.spec_bytes()[5] == tuning_program
                        &&& msg.spec_bytes()[6] == 0x7f
                        &&& (forall|k: int|
                            0 <= k < 128 ==> #[trigger] msg.spec_bytes().subrange(
                                7 + 3 * k,
                                7 + 3 * k + 3,
                            ) == mts_entry(spec_pitch_of(s, km, k)))
                        &&& msg.spec_bytes()[391] == xor_seq(
                            msg.spec_bytes().subrange(2, 391),
                        )
                        &&& msg.spec_bytes()[392] == 0xf7
                        &&& msg.spec_retuned().len() == retuned_count(s, km, 128)
                        &&& msg.spec_retuned().len() + msg.spec_out_of_range().len() == 128
                        &&& (forall|i: int|
                            0 <= i < msg.spec_retuned().len() ==> mts_in_range(
                                spec_pitch_of(s, km, (#[trigger] msg.spec_retuned()[i])@),
                            ) && 0 <= msg.spec_retuned()[i]@ < 128)
                        &&& (forall|i: int|
                            0 <= i < msg.spec_out_of_range().len() ==> !mts_in_range(
                                spec_pitch_of(
                                    s,
                                    km,
                                    (#[trigger] msg.spec_out_of_range()[i])@,
                                ),
                            ) && 0 <= msg.spec_out_of_range()[i]@ < 128)
                    },
                    Err(e) => {
                        &&& !(device_id <= 0x7f && tuning_program <= 0x7f)
                        &&& (e == MtsError::DeviceIdOutOfRange <==> device_id > 0x7f)
                    },
                }
            }),
    {
        let ghost s = tuning.scale.spec_entries();
        let ghost km = *tuning.key_map;
        if device_id > 0x7f {
            return Err(MtsError::DeviceIdOutOfRange);
        }
        if tuning_program > 0x7f {
            return Err(MtsError::ProgramOutOfRange);
        }
        let mut bytes: Vec<u8> = Vec::new();
        bytes.push(0xf0);
        bytes.push(0x7f);
        bytes.push(device_id);
        bytes.push(0x08);
        bytes.push(0x02);
        bytes.push(tuning_program);
        bytes.push(0x7f);
        let ghost header = bytes@;
        proof {
            assert(header =~= seq![
                0xf0u8,
                0x7fu8,
                device_id,
                0x08u8,
                0x02u8,
                tuning_program,
                0x7fu8,
            ]);
        }
        let mut retuned: Vec<PianoKey> = Vec::new();
        let mut out_of_range: Vec<PianoKey> = Vec::new();
        let mut k: u32 = 0;
        while k < 128
            invariant
                tuning.valid(),
                -65000 <= tuning.key_map.root_key@ <= 65000,
                s == tuning.scale.spec_entries(),
                km == *tuning.key_map,
                k <= 128,
                bytes@.len() == 7 + 3 * k,
                bytes@.subrange(0, 7) == header,
                header.len() == 7,
                forall|j: int|
                    0 <= j < k ==> #[trigger] bytes@.subrange(7 + 3 * j, 7 + 3 * j + 3)
                        == mts_entry(spec_pitch_of(s, km, j)),
                retuned@.len() == retuned_count(s, km, k as int),
                retuned@.len() + out_of_range@.len() == k,
                forall|i: int|
                    0 <= i < retuned@.len() ==> mts_in_range(
                        spec_pitch_of(s, km, (#[trigger] retuned@[i])@),
                    ) && 0 <= retuned@[i]@ < 128,
                forall|i: int|
                    0 <= i < out_of_range@.len() ==> !mts_in_range(
                        spec_pitch_of(s, km, (#[trigger] out_of_range@[i])@),
                    ) && 0 <= out_of_range@[i]@ < 128,
                forall|j: int| 2 <= j < bytes@.len() ==> #[trigger] bytes@[j] <= 0x7f,
            decreases 128 - k,
        {
            let key = PianoKey::from_midi_number(k as i32);
            let pitch = tuning.pitch_of(key);
            let (b0, b1, b2) = mts_entry_exec(pitch.as_fixed());
            let ghost before = bytes@;
            bytes.push(b0);
            bytes.push(b1);
            bytes.push(b2);
            let note = floor_div(pitch.as_fixed() + 69 * SEMITONE_UNITS, SEMITONE_UNITS);
            if 0 <= note && note <= 127 {
                retuned.push(key);
            } else {
                out_of_range.push(key);
            }
            proof {
                assert(bytes@.subrange(0, 7) =~= header);
                assert(bytes@.subrange(7 + 3 * (k as int), 7 + 3 * (k as int) + 3)
                    =~= seq![b0, b1, b2]);
                assert forall|j: int| 0 <= j < k as int implies #[trigger] bytes@.subrange(
                    7 + 3 * j,
                    7 + 3 * j + 3,
                ) == mts_entry(spec_pitch_of(s, km, j)) by {
                    assert(bytes@.subrange(7 + 3 * j, 7 + 3 * j + 3) =~= before.subrange(
                        7 + 3 * j,
                        7 + 3 * j + 3,
                    ));
                }
            }
            k = k + 1;
        }
        // Checksum over device id through the last data byte.  All of
        // those bytes are seven-bit, so the checksum is too.
        let mut acc: u8 = 0;
        let mut j: usize = 2;
        proof {
            assert(bytes@.subrange(2, 2) =~= Seq::<u8>::empty());
        }
        while j < 391
            invariant
                2 <= j <= 391,
                bytes@.len() == 391,
                acc == xor_seq(bytes@.subrange(2, j as int)),
                acc <= 0x7f,
                forall|i: int| 2 <= i < bytes@.len() ==> #[trigger] bytes@[i] <= 0x7f,
            decreases 391 - j,
        {
            proof {
                let sub1 = bytes@.subrange(2, j + 1);
                assert(sub1.drop_last() =~= bytes@.subrange(2, j as int));
                assert(sub1.last() == bytes@[j as int]);
                let b = bytes@[j as int];
                assert(acc <= 0x7f && b <= 0x7f ==> (acc ^ b) <= 0x7f) by (bit_vector);
            }
            acc = acc ^ bytes[j];
            j = j + 1;
        }
        let ghost payload = bytes@;
        bytes.push(acc);
        bytes.push(0xf7);
        proof {
            assert(bytes@.subrange(2, 391) =~= payload.subrange(2, 391));
            assert(bytes@[391] == acc);
            assert(bytes@[392] == 0xf7);
            assert(bytes@.subrange(0, 7) =~= payload.subrange(0, 7));
            assert(bytes@[0] == header[0] && bytes@[1] == header[1] && bytes@[2] == header[2]
                && bytes@[3] == header[3] && bytes@[4] == header[4] && bytes@[5] == header[5]
                && bytes@[6] == header[6]) by {
                assert(forall|i: int|
                    0 <= i < 7 ==> #[trigger] bytes@[i] == bytes@.subrange(0, 7)[i]);
            }
            assert forall|kk: int| 0 <= kk < 128 implies #[trigger] bytes@.subrange(
                7 + 3 * kk,
                7 + 3 * kk + 3,
            ) == mts_entry(spec_pitch_of(s, km, kk)) by {
                assert(bytes@.subrange(7 + 3 * kk, 7 + 3 * kk + 3) =~= payload.subrange(
                    7 + 3 * kk,
                    7 + 3 * kk + 3,
                ));
            }
        }
        Ok(SingleNoteTuningChangeMessage { bytes, retuned, out_of_range })
    }
}

/// The bits of one channel-bitmap byte: channels `base .. base + width`
/// mapped to bits `0 .. width`, set for channels within `lo ..= hi`.
pub open spec fn chan_bits(lo: int, hi: int, base: int, width: int) -> int {
    let l = if lo >= base {
        lo
    } else {
        base
    };
    let h = if hi <= base + width - 1 {
        hi
    } else {
        base + width - 1
    };
    if l > h {
        0
    } else {
        vstd::arithmetic::power2::pow2((h - base + 1) as nat) - vstd::arithmetic::power2::pow2(
            (l - base) as nat,
        )
    }
}

/// A power of two small enough for one bitmap byte.
fn pow2_u8(k: u8) -> (r: u8)
    requires
        k <= 7,
    ensures
        r == vstd::arithmetic::power2::pow2(k as nat),
        1 <= r <= 128,
{
    proof {
        vstd::arithmetic::power2::lemma2_to64();
    }
    match k {
        0 => 1,
        1 => 2,
        2 => 4,
        3 => 8,
        4 => 16,
        5 => 32,
        6 => 64,
        _ => 128,
    }
}

/// One channel-bitmap byte for a contiguous channel range.
fn chan_bits_exec(lo: u8, hi: u8, base: u8, width: u8) -> (r: u8)
    requires
        lo <= hi <= 15,
        base + width <= 16,
        1 <= width <= 7,
    ensures
        r == chan_bits(lo as int, hi as int, base as int, width as int),
        r <= 0x7f,
{
    let l = if lo >= base {
        lo
    } else {
        base
    };
    let h = if hi <= base + width - 1 {
        hi
    } else {
        base + width - 1
    };
    if l > h {
        0
    } else {
        proof {
            vstd::arithmetic::power2::lemma2_to64();
            crate::math::lemma_pow2_le((l - base) as nat, (h - base + 1) as nat);
        }
        pow2_u8(h - base + 1) - pow2_u8(l - base)
    }
}

/// The tuning's correction of scale step `i` relative to twelve-tone equal
/// temperament, sampled at the key `i` steps above the root.
pub open spec fn octave_deviation(s: Seq<int>, km: KeyMap, i: int) -> int {
    spec_pitch_of(s, km, km.root_key@ + i) - spec_pitch_of(s, km, km.root_key@) - i
        * SEMITONE_UNITS
}

/// The one-byte octave-tuning correction: the deviation in whole cents,
/// rounded half-up, clamped to `-64 ..= 63` and offset by `64`.
pub open spec fn octave_byte_1(d: int) -> int {
    let c = spec_floor_div(d + 0x80000, 0x100000);
    if c < -64 {
        0
    } else if c > 63 {
        127
    } else {
        64 + c
    }
}

/// The two-byte octave-tuning correction: the deviation in units of
/// `100/8192` cents, rounded half-up, clamped to `-8192 ..= 8191` and
/// offset by `8192`.
pub open spec fn octave_value_2(d: int) -> int {
    let c = spec_floor_div(d * 8192 + (SEMITONE_UNITS as int) / 2, SEMITONE_UNITS as int);
    if c < -8192 {
        0
    } else if c > 8191 {
        16383
    } else {
        8192 + c
    }
}

/// Encodes an octave-tuning message: a correction per pitch class of the
/// twelve-tone octave, one byte each (or an MSB/LSB pair for the two-byte
/// variant), addressed to the channels `lo_channel ..= hi_channel` through
/// the three bitmap bytes of the header.  Layout:
/// `F0 7F <device> 08 <08|09> <ch14-15> <ch7-13> <ch0-6> <data> F7`.
pub fn octave_tuning_message(
    tuning: ScaleWithKeyMap<'_>,
    device_id: u8,
    lo_channel: u8,
    hi_channel: u8,
    two_byte: bool,
) -> (r: Result<Vec<u8>, MtsError>)
    requires
        tuning.valid(),
        -65000 <= tuning.key_map.root_key@ <= 65000,
    ensures
        ({
            let s = tuning.scale.spec_entries();
            let km = *tuning.key_map;
            match r {
                Ok(v) => {
                    &&& device_id <= 0x7f
                    &&& lo_channel <= hi_channel <= 15
                    &&& v@.len() == (if two_byte {
                        33int
                    } else {
                        21int
                    })
                    &&& v@[0] == 0xf0
                    &&& v@[1] == 0x7f
                    &&& v@[2] == device_id
                    &&& v@[3] == 0x08
                    &&& v@[4] == (if two_byte {
                        9u8
                    } else {
                        8u8
                    })
                    &&& v@[5] == chan_bits(lo_channel as int, hi_channel as int, 14, 2)
                    &&& v@[6] == chan_bits(lo_channel as int, hi_channel as int, 7, 7)
                    &&& v@[7] == chan_bits(lo_channel as int, hi_channel as int, 0, 7)
                    &&& (two_byte ==> forall|i: int|
                        0 <= i < 12 ==> (#[trigger] v@[8 + 2 * i]) == octave_value_2(
                            octave_deviation(s, km, i),
                        ) / 128 && v@[8 + 2 * i + 1] == octave_value_2(
                            octave_deviation(s, km, i),
                        ) % 128)
                    &&& (!two_byte ==> forall|i: int|
                        0 <= i < 12 ==> (#[trigger] v@[8 + i]) == octave_byte_1(
                            octave_deviation(s, km, i),
                        ))
                    &&& v@.last() == 0xf7
                },
                Err(e) => {
                    &&& !(device_id <= 0x7f && lo_channel <= hi_channel <= 15)
                    &&& (e == MtsError::DeviceIdOutOfRange <==> device_id > 0x7f)
                },
            }
        }),
{
    let ghost s = tuning.scale.spec_entries();
    let ghost km = *tuning.key_map;
    if device_id > 0x7f {
        return Err(MtsError::DeviceIdOutOfRange);
    }
    if !(lo_channel <= hi_channel && hi_channel <= 15) {
        return Err(MtsError::ChannelOutOfRange);
    }
    let mut v: Vec<u8> = Vec::new();
    v.push(0xf0);
    v.push(0x7f);
    v.push(device_id);
    v.push(0x08);
    v.push(if two_byte {
        9
    } else {
        8
    });
    v.push(chan_bits_exec(lo_channel, hi_channel, 14, 2));
    v.push(chan_bits_exec(lo_channel, hi_channel, 7, 7));
    v.push(chan_bits_exec(lo_channel, hi_channel, 0, 7));
    let ghost header = v@;
    let root = tuning.key_map.root_key;
    let root_pitch = tuning.pitch_of(root).as_fixed();
    let mut i: u8 = 0;
    while i < 12
        invariant
            tuning.valid(),
            -65000 <= tuning.key_map.root_key@ <= 65000,
            s == tuning.scale.spec_entries(),
            km == *tuning.key_map,
            root == tuning.key_map.root_key,
            root_pitch == spec_pitch_of(s, km, km.root_key@),
            -600000000000000000 <= root_pitch <= 600000000000000000,
            i <= 12,
            header.len() == 8,
            v@.subrange(0, 8) == header,
            v@.len() == 8 + (if two_byte {
                2 * i as int
            } else {
                i as int
            }),
            two_byte ==> forall|j: int|
                0 <= j < i ==> (#[trigger] v@[8 + 2 * j]) == octave_value_2(
                    octave_deviation(s, km, j),
                ) / 128 && v@[8 + 2 * j + 1] == octave_value_2(octave_deviation(s, km, j))
                % 128,
            !two_byte ==> forall|j: int|
                0 <= j < i ==> (#[trigger] v@[8 + j]) == octave_byte_1(
                    octave_deviation(s, km, j),
                ),
        decreases 12 - i,
    {
        let key = root.plus_steps(i as i32);
        let pitch = tuning.pitch_of(key).as_fixed();
        let dev: i64 = pitch - root_pitch - (i as i64) * SEMITONE_UNITS;
        proof {
            assert(key@ == km.root_key@ + i);
            assert(dev == octave_deviation(s, km, i as int));
            // The deviation stays within thirteen periods' worth of units.
            crate::tuning::lemma_scale_offset_zero(s);
            crate::tuning::lemma_scale_offset_bound(s, i as int, 12);
            assert(pitch - root_pitch == scale_offset(s, i as int));
            assert(-55000000000000 <= dev <= 55000000000000);
        }
        let ghost before = v@;
        if two_byte {
            let c = floor_div(dev * 8192 + SEMITONE_UNITS / 2, SEMITONE_UNITS);
            let val: i64 = if c < -8192 {
                0
            } else if c > 8191 {
                16383
            } else {
                8192 + c
            };
            proof {
                assert(val == octave_value_2(dev as int));
                vstd::arithmetic::div_mod::lemma_fundamental_div_mod(val as int, 128);
            }
            v.push((val / 128) as u8);
            v.push((val % 128) as u8);
            proof {
                assert(v@[8 + 2 * (i as int)] == octave_value_2(
                    octave_deviation(s, km, i as int),
                ) / 128);
                assert(v@[8 + 2 * (i as int) + 1] == octave_value_2(
                    octave_deviation(s, km, i as int),
                ) % 128);
            }
        } else {
            let c = floor_div(dev + 0x80000, 0x100000);
            let b: i64 = if c < -64 {
                0
            } else if c > 63 {
                127
            } else {
                64 + c
            };
            proof {
                assert(b == octave_byte_1(dev as int));
            }
            v.push(b as u8);
            proof {
                assert(v@[8 + i as int] == octave_byte_1(octave_deviation(s, km, i as int)));
            }
        }
        proof {
            assert(v@.subrange(0, 8) =~= header);
            if two_byte {
                assert forall|j: int| 0 <= j < i as int implies (#[trigger] v@[8 + 2 * j])
                    == octave_value_2(octave_deviation(s, km, j)) / 128 && v@[8 + 2 * j + 1]
                    == octave_value_2(octave_deviation(s, km, j)) % 128 by {
                    assert(v@[8 + 2 * j] == before[8 + 2 * j]);
                    assert(v@[8 + 2 * j + 1] == before[8 + 2 * j + 1]);
                }
            } else {
                assert forall|j: int| 0 <= j < i as int implies (#[trigger] v@[8 + j])
                    == octave_byte_1(octave_deviation(s, km, j)) by {
                    assert(v@[8 + j] == before[8 + j]);
                }
            }
        }
        i = i + 1;
    }
    v.push(0xf7);
    proof {
        assert(v@.subrange(0, 8) =~= header);
        assert(header =~= seq![
            0xf0u8,
            0x7fu8,
            device_id,
            0x08u8,
            (if two_byte {
                9u8
            } else {
                8u8
            }),
            (chan_bits(lo_channel as int, hi_channel as int, 14, 2) as u8),
            (chan_bits(lo_channel as int, hi_channel as int, 7, 7) as u8),
            (chan_bits(lo_channel as int, hi_channel as int, 0, 7) as u8),
        ]);
        assert(forall|ii: int| 0 <= ii < 8 ==> #[trigger] v@[ii] == v@.subrange(0, 8)[ii]);
    }
    Ok(v)
}

/// Encodes a channel fine-tuning correction as a pitch-bend-style channel
/// message `Ex ll mm`: a 14-bit value centred at `0x2000`, one semitone of
/// range, least significant byte first.
pub fn channel_fine_tuning_message(channel: u8, detune: Ratio) -> (r: Result<
    Vec<u8>,
    MtsError,
>)
    requires
        -4194304000000 <= detune@ <= 4194304000000,
    ensures
        ({
            let val = octave_value_2(detune@);
            match r {
                Ok(v) => {
                    &&& channel <= 15
                    &&& -0x2000 <= spec_floor_div(
                        detune@ * 8192 + (SEMITONE_UNITS as int) / 2,
                        SEMITONE_UNITS as int,
                    ) <= 0x1fff
                    &&& v@ =~= seq![(0xe0 + channel) as u8, (val % 128) as u8, (val / 128) as u8]
                },
                Err(e) => {
                    &&& !(channel <= 15 && -0x2000 <= spec_floor_div(
                        detune@ * 8192 + (SEMITONE_UNITS as int) / 2,
                        SEMITONE_UNITS as int,
                    ) <= 0x1fff)
                    &&& (e == MtsError::ChannelOutOfRange <==> channel > 15)
                },
            }
        }),
{
    if channel > 15 {
        return Err(MtsError::ChannelOutOfRange);
    }
    let c = floor_div(detune.as_fixed() * 8192 + SEMITONE_UNITS / 2, SEMITONE_UNITS);
    if c < -0x2000 || c > 0x1fff {
        return Err(MtsError::ValueOutOfRange);
    }
    let val: i64 = 8192 + c;
    proof {
        assert(val == octave_value_2(detune@));
        vstd::arithmetic::div_mod::lemma_fundamental_div_mod(val as int, 128);
    }
    let mut v: Vec<u8> = Vec::new();
    v.push(0xe0 + channel);
    v.push((val % 128) as u8);
    v.push((val / 128) as u8);
    Ok(v)
}

/// Encodes a tuning program change: the two-byte channel message
/// `Cx <program>`.
pub fn tuning_program_change_message(channel: u8, program: u8) -> (r: Result<
    Vec<u8>,
    MtsError,
>)
    ensures
        match r {
            Ok(v) => {
                &&& channel <= 15
                &&& program <= 0x7f
                &&& v@ =~= seq![(0xc0 + channel) as u8, program]
            },
            Err(e) => {
                &&& !(channel <= 15 && program <= 0x7f)
                &&& (e == MtsError::ChannelOutOfRange <==> channel > 15)
            },
        },
{
    if channel > 15 {
        return Err(MtsError::ChannelOutOfRange);
    }
    if program > 0x7f {
        return Err(MtsError::ProgramOutOfRange);
    }
    let mut v: Vec<u8> = Vec::new();
    v.push(0xc0 + channel);
    v.push(program);
    Ok(v)
}

/// Encodes a tuning bank change: the three-byte bank-select control
/// message `Bx 00 <bank>`.
pub fn tuning_bank_change_message(channel: u8, bank: u8) -> (r: Result<Vec<u8>, MtsError>)
    ensures
        match r {
            Ok(v) => {
                &&& channel <= 15
                &&& bank <= 0x7f
                &&& v@ =~= seq![(0xb0 + channel) as u8, 0u8, bank]
            },
            Err(e) => {
                &&& !(channel <= 15 && bank <= 0x7f)
                &&& (e == MtsError::ChannelOutOfRange <==> channel > 15)
            },
        },
{
    if channel > 15 {
        return Err(MtsError::ChannelOutOfRange);
    }
    if bank > 0x7f {
        return Err(MtsError::ProgramOutOfRange);
    }
    let mut v: Vec<u8> = Vec::new();
    v.push(0xb0 + channel);
    v.push(0);
    v.push(bank);
    Ok(v)
}

} // verus!