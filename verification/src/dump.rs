//! Diagnostic dump records: one row per key, carrying everything the
//! table and diff front ends print.

use crate::fraction::{nearest_fraction, NearestFraction, OCTAVE_UNITS};
use crate::key::PianoKey;
use crate::note::Note;
use crate::pitch::{Pitch, SEMITONE_UNITS};
use crate::ratio::{fraction_units, Ratio};
use crate::tuning::{
    spec_concert_pitch_of, spec_pitch_of, ConcertPitch, ScaleWithKeyMap,
};
use vstd::prelude::*;

verus! {

/// One row of a scale dump: a key, its scale degree, its pitch, the
/// simplest fraction approximating its interval from the root, and the
/// nearest twelve-tone note with the deviation from it.
pub struct DumpRecord {
    /// The key's MIDI number.
    pub midi_number: i32,
    /// The key's degree, counted from the root key.
    pub scale_degree: i32,
    /// The key's pitch under the tuning.
    pub pitch: Pitch,
    /// The simplest fraction approximating the interval from the root.
    pub nearest_fraction: NearestFraction,
    /// The nearest note of twelve-tone equal temperament at 440 Hz.
    pub approx_note: Note,
    /// How far the pitch lies above that note.
    pub approx_deviation: Ratio,
}

/// What every record of a dump satisfies: the key's pitch and degree are
/// exact, the fraction approximates the interval from the root under the
/// requested limit, and the note is the nearest one with a deviation of at
/// most half a semitone (ties resolved downward).
pub open spec fn dump_record_wf(
    rec: DumpRecord,
    s: Seq<int>,
    km: crate::tuning::KeyMap,
    key: int,
    limit: int,
) -> bool {
    &&& rec.midi_number == key
    &&& rec.scale_degree == key - km.root_key@
    &&& rec.pitch@ == spec_pitch_of(s, km, key)
    &&& rec.approx_deviation@ == rec.pitch@ - spec_concert_pitch_of(0, rec.approx_note@)
    &&& -SEMITONE_UNITS < 2 * rec.approx_deviation@ <= SEMITONE_UNITS
    &&& 1 <= rec.nearest_fraction.numer <= limit
    &&& 1 <= rec.nearest_fraction.denom <= limit
    &&& (exists|c: int|
        fraction_units(
            rec.nearest_fraction.numer as nat,
            rec.nearest_fraction.denom as nat,
            c,
        ) && rec.nearest_fraction.deviation@ == rec.pitch@ - spec_pitch_of(
            s,
            km,
            km.root_key@,
        ) - rec.nearest_fraction.num_octaves * (OCTAVE_UNITS as int) - c)
}

/// Builds the dump rows for the keys `lo_key .. up_key` of a tuning.
pub fn dump_records(
    tuning: ScaleWithKeyMap<'_>,
    lo_key: i32,
    up_key: i32,
    limit: u16,
) -> (r: Vec<DumpRecord>)
    requires
        tuning.valid(),
        1 <= limit,
        lo_key <= up_key,
        -65536 <= lo_key - tuning.key_map.root_key@,
        up_key - tuning.key_map.root_key@ <= 65536,
        forall|k: int|
            lo_key <= k < up_key ==> -104857600000000 <= #[trigger] spec_pitch_of(
                tuning.scale.spec_entries(),
                *tuning.key_map,
                k,
            ) <= 104857600000000,
    ensures
        r@.len() == up_key - lo_key,
        forall|i: int|
            0 <= i < r@.len() ==> dump_record_wf(
                #[trigger] r@[i],
                tuning.scale.spec_entries(),
                *tuning.key_map,
                lo_key + i,
                limit as int,
            ),
{
    let ghost s = tuning.scale.spec_entries();
    let ghost km = *tuning.key_map;
    let concert = ConcertPitch::standard();
    let root_pitch = tuning.pitch_of(tuning.key_map.root_key);
    let mut r: Vec<DumpRecord> = Vec::new();
    let mut key = lo_key;
    while key < up_key
        invariant
            tuning.valid(),
            1 <= limit,
            s == tuning.scale.spec_entries(),
            km == *tuning.key_map,
            concert.valid(),
            concert.spec_a4() == 0,
            lo_key <= key <= up_key,
            -65536 <= lo_key - km.root_key@,
            up_key - km.root_key@ <= 65536,
            forall|k: int|
                lo_key <= k < up_key ==> -104857600000000 <= #[trigger] spec_pitch_of(
                    s,
                    km,
                    k,
                ) <= 104857600000000,
            root_pitch@ == spec_pitch_of(s, km, km.root_key@),
            -600000000000000000 <= root_pitch@ <= 600000000000000000,
            r@.len() == key - lo_key,
            forall|i: int|
                0 <= i < r@.len() ==> dump_record_wf(
                    #[trigger] r@[i],
                    s,
                    km,
                    lo_key + i,
                    limit as int,
                ),
        decreases up_key - key,
    {
        let pk = PianoKey::from_midi_number(key);
        let pitch = tuning.pitch_of(pk);
        let from_root = Ratio::between_pitches(&root_pitch, &pitch);
        let fraction = nearest_fraction(from_root, limit);
        let approx = concert.find_by_pitch(pitch);
        proof {
            // The nearest note is within half a semitone: any further
            // neighbour contradicts the search's optimality clause.
            let dev = approx.deviation@;
            let n = approx.approx_value@;
            assert(spec_concert_pitch_of(0, n + 1) == spec_concert_pitch_of(0, n)
                + SEMITONE_UNITS) by (nonlinear_arith);
            assert(spec_concert_pitch_of(0, n - 1) == spec_concert_pitch_of(0, n)
                - SEMITONE_UNITS) by (nonlinear_arith);
            if 2 * dev > SEMITONE_UNITS {
                assert(vstd::math::abs(pitch@ - spec_concert_pitch_of(0, n + 1)) < vstd::math::abs(
                    dev,
                ));
                assert(false);
            }
            if 2 * dev <= -SEMITONE_UNITS {
                assert(vstd::math::abs(pitch@ - spec_concert_pitch_of(0, n - 1))
                    <= vstd::math::abs(dev));
                assert(false);
            }
        }
        let rec = DumpRecord {
            midi_number: key,
            scale_degree: key - tuning.key_map.root_key.midi_number(),
            pitch,
            nearest_fraction: fraction,
            approx_note: approx.approx_value,
            approx_deviation: approx.deviation,
        };
        r.push(rec);
        key = key + 1;
    }
    r
}

/// One row of a diff: a foreign pitch located in a candidate tuning.
pub struct DiffRecord {
    /// The MIDI number the source assigned to the pitch.
    pub source_midi: i32,
    /// The source's scale degree for the pitch.
    pub source_degree: i32,
    /// The pitch itself.
    pub pitch: Pitch,
    /// The simplest fraction approximating the interval from the candidate
    /// tuning's root.
    pub nearest_fraction: NearestFraction,
    /// The nearest key of the candidate tuning.
    pub target_key: PianoKey,
    /// That key's index relative to the candidate tuning's root.
    pub target_index: i32,
    /// How far the pitch lies above the nearest key's own pitch.
    pub deviation: Ratio,
}

/// Locates each `(midi, degree, pitch)` row of a foreign dump in the given
/// candidate tuning: the nearest key, its index from the root, and the
/// deviation, plus the nearest-fraction diagnosis of the pitch.
pub fn diff_records(
    tuning: ScaleWithKeyMap<'_>,
    items: &Vec<(i32, i32, Pitch)>,
    limit: u16,
) -> (r: Vec<DiffRecord>)
    requires
        tuning.valid(),
        1 <= limit,
        forall|i: int|
            0 <= i < items@.len() ==> {
                let p = (#[trigger] items@[i]).2@;
                spec_pitch_of(
                    tuning.scale.spec_entries(),
                    *tuning.key_map,
                    tuning.key_map.root_key@,
                ) - 16000 * tuning.scale.spec_entries().last() <= p <= spec_pitch_of(
                    tuning.scale.spec_entries(),
                    *tuning.key_map,
                    tuning.key_map.root_key@,
                ) + 16000 * tuning.scale.spec_entries().last()
            },
        -65536 <= tuning.key_map.root_key@ <= 65536,
    ensures
        r@.len() == items@.len(),
        forall|i: int|
            0 <= i < r@.len() ==> {
                let rec = #[trigger] r@[i];
                let s = tuning.scale.spec_entries();
                let km = *tuning.key_map;
                &&& rec.source_midi == items@[i].0
                &&& rec.source_degree == items@[i].1
                &&& rec.pitch == items@[i].2
                &&& rec.deviation@ == rec.pitch@ - spec_pitch_of(s, km, rec.target_key@)
                &&& rec.target_index == rec.target_key@ - km.root_key@
                &&& (forall|k: int|
                    k != rec.target_key@ ==> vstd::math::abs(
                        rec.pitch@ - spec_pitch_of(s, km, k),
                    ) > vstd::math::abs(rec.deviation@) || (vstd::math::abs(
                        rec.pitch@ - spec_pitch_of(s, km, k),
                    ) == vstd::math::abs(rec.deviation@) && rec.target_key@ < k))
            },
{
    let ghost s = tuning.scale.spec_entries();
    let ghost km = *tuning.key_map;
    let root_pitch = tuning.pitch_of(tuning.key_map.root_key);
    let mut r: Vec<DiffRecord> = Vec::new();
    let mut i: usize = 0;
    while i < items.len()
        invariant
            tuning.valid(),
            1 <= limit,
            s == tuning.scale.spec_entries(),
            km == *tuning.key_map,
            -65536 <= km.root_key@ <= 65536,
            i <= items@.len(),
            root_pitch@ == spec_pitch_of(s, km, km.root_key@),
            -600000000000000000 <= root_pitch@ <= 600000000000000000,
            forall|j: int|
                0 <= j < items@.len() ==> {
                    let p = (#[trigger] items@[j]).2@;
                    spec_pitch_of(s, km, km.root_key@) - 16000 * s.last() <= p <= spec_pitch_of(
                        s,
                        km,
                        km.root_key@,
                    ) + 16000 * s.last()
                },
            r@.len() == i,
            forall|j: int|
                0 <= j < r@.len() ==> {
                    let rec = #[trigger] r@[j];
                    &&& rec.source_midi == items@[j].0
                    &&& rec.source_degree == items@[j].1
                    &&& rec.pitch == items@[j].2
                    &&& rec.deviation@ == rec.pitch@ - spec_pitch_of(s, km, rec.target_key@)
                    &&& rec.target_index == rec.target_key@ - km.root_key@
                    &&& (forall|k: int|
                        k != rec.target_key@ ==> vstd::math::abs(
                            rec.pitch@ - spec_pitch_of(s, km, k),
                        ) > vstd::math::abs(rec.deviation@) || (vstd::math::abs(
                            rec.pitch@ - spec_pitch_of(s, km, k),
                        ) == vstd::math::abs(rec.deviation@) && rec.target_key@ < k))
                },
        decreases items@.len() - i,
    {
        let (midi, degree, pitch) = items[i];
        let approx = tuning.find_by_pitch(pitch);
        let from_root = Ratio::between_pitches(&root_pitch, &pitch);
        let fraction = nearest_fraction(from_root, limit);
        let index = tuning.key_map.root_key.num_keys_before(approx.approx_value);
        let rec = DiffRecord {
            source_midi: midi,
            source_degree: degree,
            pitch,
            nearest_fraction: fraction,
            target_key: approx.approx_value,
            target_index: index,
            deviation: approx.deviation,
        };
        r.push(rec);
        i = i + 1;
    }
    r
}

} // verus!