//! Tunings: the bidirectional mapping between discrete keys and pitches.
//!
//! A [`KeyMap`] anchors a [`crate::scale::Scale`] to the keyboard; the pair
//! maps every integer key to a pitch ([`ScaleWithKeyMap::pitch_of`]) and
//! maps any pitch back to the nearest key
//! ([`ScaleWithKeyMap::find_by_pitch`]).

use crate::key::PianoKey;
use crate::math::{floor_div, floor_mod, spec_floor_div};
use crate::note::Note;
use crate::pitch::{Pitch, ReferencePitch, SEMITONE_UNITS};
use crate::ratio::{Ratio, MAX_RATIO_UNITS};
use crate::scale::{entries_wf, Scale};
use vstd::arithmetic::div_mod::{
    lemma_fundamental_div_mod, lemma_fundamental_div_mod_converse,
};
use vstd::prelude::*;

verus! {

/// Binds a reference pitch to a specific key and designates which key is
/// the scale's root (degree zero).
#[derive(Clone, Copy, Debug, PartialEq, Eq, Structural)]
pub struct KeyMap {
    /// The key that sounds at an explicitly given pitch.
    pub ref_pitch: ReferencePitch,
    /// The key playing degree zero of the scale.
    pub root_key: PianoKey,
}

/// The bounds under which key-map arithmetic cannot overflow: keys within
/// a million of zero, the reference at most `65536` keys from the root,
/// and the reference pitch within `2^47` units of A4.
pub open spec fn keymap_wf(km: KeyMap) -> bool {
    &&& -1000000 <= km.root_key@ <= 1000000
    &&& -1000000 <= km.ref_pitch.spec_key()@ <= 1000000
    &&& -65536 <= km.ref_pitch.spec_key()@ - km.root_key@ <= 65536
    &&& -0x8000_0000_0000 <= km.ref_pitch.spec_pitch()@ <= 0x8000_0000_0000
}

impl KeyMap {
    /// A key map rooted at the reference key itself.
    pub fn from_reference(ref_pitch: ReferencePitch) -> (r: KeyMap)
        ensures
            r.ref_pitch == ref_pitch,
            r.root_key == ref_pitch.spec_key(),
    {
        let root_key = ref_pitch.key();
        KeyMap { ref_pitch, root_key }
    }

    /// A key map with an optional explicit root note; without one, the
    /// reference key is the root.
    pub fn from_reference_and_root(ref_pitch: ReferencePitch, root_note: Option<i32>) -> (r:
        KeyMap)
        ensures
            r.ref_pitch == ref_pitch,
            r.root_key@ == (match root_note {
                Some(n) => n as int,
                None => ref_pitch.spec_key()@,
            }),
    {
        match root_note {
            Some(n) => KeyMap { ref_pitch, root_key: PianoKey::from_midi_number(n) },
            None => KeyMap::from_reference(ref_pitch),
        }
    }

    /// Checks the bounds of [`keymap_wf`] at run time, so that unverified
    /// callers can establish them before using the map.
    pub fn is_well_formed(&self) -> (r: bool)
        ensures
            r == keymap_wf(*self),
    {
        let root = self.root_key.midi_number();
        let refk = self.ref_pitch.key().midi_number();
        let refp = self.ref_pitch.pitch().as_fixed();
        -1000000 <= root && root <= 1000000 && -1000000 <= refk && refk <= 1000000 && -65536
            <= (refk as i64) - (root as i64) && (refk as i64) - (root as i64) <= 65536
            && -0x8000_0000_0000 <= refp && refp <= 0x8000_0000_0000
    }
}

/// The interval of scale degree `d` above the root within one period:
/// degree zero is the unison, degree `d >= 1` is entry `d - 1`.
pub open spec fn degree_units(s: Seq<int>, d: int) -> int {
    if d == 0 {
        0
    } else {
        s[d - 1]
    }
}

/// The interval from the root key to the key `n` steps above it: whole
/// periods for the octave part, then the degree interval.
pub open spec fn scale_offset(s: Seq<int>, n: int) -> int {
    let len = s.len() as int;
    let o = spec_floor_div(n, len);
    o * s[len - 1] + degree_units(s, n - o * len)
}

/// The pitch of `key` under scale `s` anchored by `km`: the reference
/// pitch, shifted by the scale interval from the root to `key` and
/// un-shifted by the interval from the root to the reference key.
pub open spec fn spec_pitch_of(s: Seq<int>, km: KeyMap, key: int) -> int {
    km.ref_pitch.spec_pitch()@ + scale_offset(s, key - km.root_key@) - scale_offset(
        s,
        km.ref_pitch.spec_key()@ - km.root_key@,
    )
}

/// The root key itself has offset zero.
pub proof fn lemma_scale_offset_zero(s: Seq<int>)
    requires
        entries_wf(s),
    ensures
        scale_offset(s, 0) == 0,
{
    assert(0 == 0 * (s.len() as int) + 0) by (nonlinear_arith);
    lemma_fundamental_div_mod_converse(0, s.len() as int, 0, 0);
    assert(0 * s[s.len() - 1] == 0) by (nonlinear_arith);
}

/// One key up moves the offset strictly up (and by at most one period).
pub proof fn lemma_scale_offset_step(s: Seq<int>, n: int)
    requires
        entries_wf(s),
    ensures
        scale_offset(s, n) < scale_offset(s, n + 1) <= scale_offset(s, n) + s[s.len() - 1],
{
    let len = s.len() as int;
    let p = s[len - 1];
    let o = spec_floor_div(n, len);
    lemma_fundamental_div_mod(n, len);
    let d = n - o * len;
    assert(0 <= d < len) by {
        vstd::arithmetic::div_mod::lemma_mod_bound(n, len);
    }
    if d < len - 1 {
        lemma_fundamental_div_mod_converse(n + 1, len, o, d + 1);
        assert(spec_floor_div(n + 1, len) == o);
        assert(scale_offset(s, n + 1) == o * p + degree_units(s, d + 1));
        if d == 0 {
            assert(degree_units(s, 1) == s[0] > 0);
            assert(s[0] <= p);
        } else {
            assert(s[d - 1] < s[d]);
            assert(s[d] <= p);
        }
    } else {
        assert(d == len - 1);
        assert(n + 1 == (o + 1) * len + 0) by (nonlinear_arith)
            requires
                n == len * o + d,
                d == len - 1,
        ;
        lemma_fundamental_div_mod_converse(n + 1, len, o + 1, 0);
        assert(spec_floor_div(n + 1, len) == o + 1);
        assert(scale_offset(s, n + 1) == (o + 1) * p);
        assert((o + 1) * p == o * p + p) by (nonlinear_arith);
        if len == 1 {
            assert(degree_units(s, d) == 0);
            assert(p > 0);
        } else {
            assert(degree_units(s, d) == s[len - 2]);
            assert(s[len - 2] < p);
            assert(s[len - 2] > 0);
        }
    }
}

/// The offset is strictly increasing in the key.
pub proof fn lemma_scale_offset_mono(s: Seq<int>, n1: int, n2: int)
    requires
        entries_wf(s),
        n1 < n2,
    ensures
        scale_offset(s, n1) < scale_offset(s, n2),
    decreases n2 - n1,
{
    lemma_scale_offset_step(s, n1);
    if n1 + 1 < n2 {
        lemma_scale_offset_mono(s, n1 + 1, n2);
    }
}

/// The offset of a key within `b` steps of the root stays within `b + 1`
/// periods' worth of interval.
pub proof fn lemma_scale_offset_bound(s: Seq<int>, n: int, b: int)
    requires
        entries_wf(s),
        0 <= b,
        -b <= n <= b,
    ensures
        -(b + 1) * MAX_RATIO_UNITS <= scale_offset(s, n) <= (b + 1) * MAX_RATIO_UNITS,
{
    let len = s.len() as int;
    let p = s[len - 1];
    let o = spec_floor_div(n, len);
    lemma_fundamental_div_mod(n, len);
    let d = n - o * len;
    assert(0 <= d < len) by {
        vstd::arithmetic::div_mod::lemma_mod_bound(n, len);
    }
    // |o| <= |n| because len >= 1.
    assert(-b <= o <= b) by (nonlinear_arith)
        requires
            n == len * o + d,
            0 <= d < len,
            1 <= len,
            -b <= n <= b,
            0 <= b,
    ;
    assert(0 < p <= MAX_RATIO_UNITS);
    assert(-b * MAX_RATIO_UNITS <= o * p <= b * MAX_RATIO_UNITS) by (nonlinear_arith)
        requires
            -b <= o <= b,
            0 < p <= MAX_RATIO_UNITS,
            0 <= b,
    ;
    assert(0 <= degree_units(s, d) <= MAX_RATIO_UNITS);
    assert((b + 1) * MAX_RATIO_UNITS == b * MAX_RATIO_UNITS + MAX_RATIO_UNITS)
        by (nonlinear_arith);
}

/// Periodicity: moving any key by `j` whole scale lengths moves its pitch
/// by exactly `j` periods.  This is the law that makes the key-to-pitch
/// mapping total and periodic over all integers.
pub proof fn lemma_pitch_of_periodic(s: Seq<int>, km: KeyMap, key: int, j: int)
    requires
        entries_wf(s),
    ensures
        spec_pitch_of(s, km, key + j * s.len()) == spec_pitch_of(s, km, key) + j * s[s.len()
            - 1],
{
    let len = s.len() as int;
    let p = s[len - 1];
    let n = key - km.root_key@;
    let o = spec_floor_div(n, len);
    lemma_fundamental_div_mod(n, len);
    let d = n - o * len;
    assert(0 <= d < len) by {
        vstd::arithmetic::div_mod::lemma_mod_bound(n, len);
    }
    assert(n + j * len == (o + j) * len + d) by (nonlinear_arith)
        requires
            n == len * o + d,
    ;
    lemma_fundamental_div_mod_converse(n + j * len, len, o + j, d);
    assert(scale_offset(s, n + j * len) == (o + j) * p + degree_units(s, d));
    assert((o + j) * p == o * p + j * p) by (nonlinear_arith);
    assert(key + j * s.len() - km.root_key@ == n + j * len);
}

/// A scale anchored to the keyboard by a key map: a tuning.
pub struct ScaleWithKeyMap<'a> {
    /// The interval pattern.
    pub scale: &'a Scale,
    /// The anchor.
    pub key_map: &'a KeyMap,
}

impl Scale {
    /// Anchors the scale with a key map, forming a tuning.
    pub fn with_key_map<'a>(&'a self, key_map: &'a KeyMap) -> (t: ScaleWithKeyMap<'a>)
        ensures
            t.scale == self,
            t.key_map == key_map,
    {
        ScaleWithKeyMap { scale: self, key_map }
    }
}

/// Computes [`scale_offset`] for a key `n` steps from the root.
fn scale_offset_exec(scale: &Scale, n: i64) -> (r: i64)
    requires
        scale.wf(),
        -131073 <= n <= 131073,
    ensures
        r == scale_offset(scale.spec_entries(), n as int),
        -131074 * MAX_RATIO_UNITS <= r <= 131074 * MAX_RATIO_UNITS,
{
    let ghost s = scale.spec_entries();
    let len = scale.num_entries();
    let o = floor_div(n, len as i64);
    let d = floor_mod(n, len as i64);
    proof {
        lemma_fundamental_div_mod(n as int, len as int);
        assert(d == n - o * len) by {
            assert(n == (len as int) * (o as int) + (d as int));
        }
        assert(-131073 <= o <= 131073) by (nonlinear_arith)
            requires
                n as int == (len as int) * (o as int) + (d as int),
                0 <= d < len as int,
                1 <= len as int,
                -131073 <= n <= 131073,
        ;
        assert(-131073 * MAX_RATIO_UNITS <= (o as int) * (s[s.len() - 1]) <= 131073
            * MAX_RATIO_UNITS) by (nonlinear_arith)
            requires
                -131073 <= o <= 131073,
                0 < s[s.len() - 1] <= MAX_RATIO_UNITS,
        ;
        lemma_scale_offset_bound(s, n as int, 131073);
    }
    let period = scale.period().as_fixed();
    let du: i64 = if d == 0 {
        0
    } else {
        scale.entry((d - 1) as usize).as_fixed()
    };
    o * period + du
}

impl<'a> ScaleWithKeyMap<'a> {
    /// The tuning is usable when the scale is well formed and the key map
    /// within bounds.
    pub open spec fn valid(&self) -> bool {
        &&& self.scale.wf()
        &&& keymap_wf(*self.key_map)
    }

    /// The pitch sounding at `key`: total and periodic over every key
    /// within the supported window around the root.
    pub fn pitch_of(&self, key: PianoKey) -> (r: Pitch)
        requires
            self.valid(),
            -65536 <= key@ - self.key_map.root_key@ <= 65536,
        ensures
            r@ == spec_pitch_of(self.scale.spec_entries(), *self.key_map, key@),
            -600000000000000000 <= r@ <= 600000000000000000,
    {
        let ghost s = self.scale.spec_entries();
        let root = self.key_map.root_key.midi_number() as i64;
        let n1 = key.midi_number() as i64 - root;
        let n2 = self.key_map.ref_pitch.key().midi_number() as i64 - root;
        let off1 = scale_offset_exec(self.scale, n1);
        let off2 = scale_offset_exec(self.scale, n2);
        proof {
            lemma_scale_offset_bound(s, n1 as int, 65536);
            lemma_scale_offset_bound(s, n2 as int, 65536);
        }
        let units = self.key_map.ref_pitch.pitch().as_fixed() + off1 - off2;
        Pitch::from_fixed(units)
    }

    /// The inverse search: the key whose pitch is nearest to `pitch`,
    /// together with the signed deviation of `pitch` from that key's own
    /// pitch.  Of two equally distant keys the lower one is returned.
    pub fn find_by_pitch(&self, pitch: Pitch) -> (r: Approximation<PianoKey>)
        requires
            self.valid(),
            spec_pitch_of(
                self.scale.spec_entries(),
                *self.key_map,
                self.key_map.root_key@,
            ) - 16000 * self.scale.spec_entries().last() <= pitch@,
            pitch@ <= spec_pitch_of(
                self.scale.spec_entries(),
                *self.key_map,
                self.key_map.root_key@,
            ) + 16000 * self.scale.spec_entries().last(),
        ensures
            r.deviation@ == pitch@ - spec_pitch_of(
                self.scale.spec_entries(),
                *self.key_map,
                r.approx_value@,
            ),
            forall|k: int|
                k != r.approx_value@ ==> vstd::math::abs(
                    pitch@ - spec_pitch_of(self.scale.spec_entries(), *self.key_map, k),
                ) > vstd::math::abs(r.deviation@) || (vstd::math::abs(
                    pitch@ - spec_pitch_of(self.scale.spec_entries(), *self.key_map, k),
                ) == vstd::math::abs(r.deviation@) && r.approx_value@ < k),
            -1100000000 <= r.approx_value@ - self.key_map.root_key@ <= 1100000000,
    {
        let ghost s = self.scale.spec_entries();
        let ghost km = *self.key_map;
        let root = self.key_map.root_key;
        let root_units = self.pitch_of(root).as_fixed();
        proof {
            // The root's own offset is zero.
            assert(0 == 0 * (s.len() as int) + 0) by (nonlinear_arith);
            lemma_fundamental_div_mod_converse(0, s.len() as int, 0, 0);
            assert(0 * s[s.len() - 1] == 0) by (nonlinear_arith);
            assert(scale_offset(s, 0) == 0);
        }
        let rel = pitch.as_fixed() - root_units;
        let period = self.scale.period().as_fixed();
        let len = self.scale.num_entries();
        let o = floor_div(rel, period as i64);
        let rem = floor_mod(rel, period as i64);
        proof {
            lemma_fundamental_div_mod(rel as int, period as int);
            assert(rem == rel - o * period) by {
                assert(rel as int == (period as int) * (o as int) + (rem as int));
            }
            assert(-16000 <= o <= 16000) by (nonlinear_arith)
                requires
                    rel as int == (period as int) * (o as int) + (rem as int),
                    0 <= rem < period as int,
                    0 < period,
                    -16000 * (period as int) <= rel <= 16000 * (period as int),
            ;
            assert(-16000 * MAX_RATIO_UNITS <= (o as int) * (period as int) <= 16000
                * MAX_RATIO_UNITS) by (nonlinear_arith)
                requires
                    -16000 <= o <= 16000,
                    0 < period as int <= MAX_RATIO_UNITS,
            ;
        }
        // The degree below or at the remainder: the largest d with
        // degree_units(d) <= rem.
        let mut d: usize = 0;
        while d < len - 1 && self.scale.entry(d).as_fixed() <= rem
            invariant
                self.valid(),
                s == self.scale.spec_entries(),
                len == s.len(),
                0 <= d <= len - 1,
                0 <= rem,
                forall|j: int| 0 <= j < d ==> #[trigger] s[j] <= rem,
            decreases len - d,
        {
            d = d + 1;
        }
        proof {
            assert(degree_units(s, d as int) <= rem);
            if (d as int) < len - 1 {
                assert(s[d as int] > rem);
            } else {
                assert(rem < period);
            }
        }
        proof {
            assert(-16000 * 65536 <= (o as int) * (len as int) <= 16000 * 65536)
                by (nonlinear_arith)
                requires
                    -16000 <= o <= 16000,
                    1 <= len as int <= 65536,
            ;
        }
        let n1: i64 = o * (len as i64) + (d as i64);
        proof {
            // scale_offset at n1 and n1 + 1.
            assert((n1 as int) == (len as int) * (o as int) + (d as int))
                by (nonlinear_arith)
                requires
                    n1 as int == (o as int) * (len as int) + (d as int),
            ;
            lemma_fundamental_div_mod_converse(n1 as int, len as int, o as int, d as int);
            assert(scale_offset(s, n1 as int) == (o as int) * (period as int) + degree_units(
                s,
                d as int,
            ));
            if (d as int) + 1 < len as int {
                assert((n1 + 1) as int == (len as int) * (o as int) + ((d + 1) as int))
                    by (nonlinear_arith)
                    requires
                        n1 as int == (o as int) * (len as int) + (d as int),
                ;
                lemma_fundamental_div_mod_converse(
                    (n1 + 1) as int,
                    len as int,
                    o as int,
                    (d + 1) as int,
                );
                assert(scale_offset(s, (n1 + 1) as int) == (o as int) * (period as int)
                    + degree_units(s, (d + 1) as int));
            } else {
                assert((n1 + 1) as int == (len as int) * ((o + 1) as int) + 0)
                    by (nonlinear_arith)
                    requires
                        n1 as int == (o as int) * (len as int) + (d as int),
                        d as int == len - 1,
                ;
                lemma_fundamental_div_mod_converse(
                    (n1 + 1) as int,
                    len as int,
                    (o + 1) as int,
                    0,
                );
                assert((n1 + 1) as int - ((o + 1) as int) * (len as int) == 0)
                    by (nonlinear_arith)
                    requires
                        (n1 + 1) as int == (len as int) * ((o + 1) as int) + 0,
                ;
                assert(((o + 1) as int) * (period as int) == (o as int) * (period as int) + (
                period as int)) by (nonlinear_arith);
                assert(scale_offset(s, (n1 + 1) as int) == (o as int) * (period as int) + (
                period as int));
            }
        }
        let du: i64 = if d == 0 {
            0
        } else {
            self.scale.entry(d - 1).as_fixed()
        };
        let off1: i64 = o * period + du;
        let off_next: i64 = if d + 1 < len {
            o * period + self.scale.entry(d).as_fixed()
        } else {
            (o + 1) * period
        };
        proof {
            assert(off1 == scale_offset(s, n1 as int));
            assert(off_next == scale_offset(s, (n1 + 1) as int));
            lemma_scale_offset_step(s, n1 as int);
        }
        let dev1: i64 = rem - du;
        let dev2: i64 = off_next - rel;
        proof {
            assert(dev1 == rel - off1);
            assert(dev1 >= 0);
            assert(dev2 > 0);
        }
        let (n, dev) = if dev1 <= dev2 {
            (n1, dev1)
        } else {
            (n1 + 1, -dev2)
        };
        let key = PianoKey::from_midi_number((root.midi_number() as i64 + n) as i32);
        proof {
            let chosen = key@;
            let rootv = km.root_key@;
            assert(chosen - rootv == n as int);
            // The deviation equals the pitch minus the chosen key's pitch.
            assert(spec_pitch_of(s, km, chosen) == root_units + scale_offset(s, n as int));
            // Every other key is farther away, or equally far and higher.
            assert forall|k: int| k != chosen implies vstd::math::abs(
                pitch@ - spec_pitch_of(s, km, k),
            ) > vstd::math::abs(dev as int) || (vstd::math::abs(
                pitch@ - spec_pitch_of(s, km, k),
            ) == vstd::math::abs(dev as int) && chosen < k) by {
                let m = k - rootv;
                assert(spec_pitch_of(s, km, k) == root_units + scale_offset(s, m));
                let dist = pitch@ - spec_pitch_of(s, km, k);
                assert(dist == rel - scale_offset(s, m));
                if m < n1 as int {
                    lemma_scale_offset_mono(s, m, n1 as int);
                } else if m == n1 as int {
                    assert(n as int == n1 + 1);
                } else if m == n1 + 1 {
                    assert(n as int == n1 as int);
                } else {
                    lemma_scale_offset_mono(s, (n1 + 1) as int, m);
                }
            }
        }
        Approximation { approx_value: key, deviation: Ratio::from_fixed(dev) }
    }
}

/// The result of a nearest-neighbour search in a tuning: the closest
/// element and the signed deviation of the query from it.
#[derive(Clone, Copy, Debug, PartialEq, Eq, Structural)]
pub struct Approximation<K> {
    /// The nearest element.
    pub approx_value: K,
    /// The interval by which the query lies above the nearest element.
    pub deviation: Ratio,
}

/// The key-to-pitch mapping is strictly increasing in the key.
pub proof fn lemma_pitch_of_strictly_increasing(s: Seq<int>, km: KeyMap, k1: int, k2: int)
    requires
        entries_wf(s),
        k1 < k2,
    ensures
        spec_pitch_of(s, km, k1) < spec_pitch_of(s, km, k2),
{
    lemma_scale_offset_mono(s, k1 - km.root_key@, k2 - km.root_key@);
}

/// Inverse consistency: searching a tuning for the pitch of one of its own
/// keys finds exactly that key, with zero deviation.  The hypotheses are
/// precisely what [`ScaleWithKeyMap::find_by_pitch`] ensures about its
/// result, so the law applies to every such search.
pub proof fn lemma_find_by_pitch_inverse(
    s: Seq<int>,
    km: KeyMap,
    p: int,
    found: int,
    dev: int,
    key: int,
)
    requires
        entries_wf(s),
        p == spec_pitch_of(s, km, key),
        dev == p - spec_pitch_of(s, km, found),
        forall|k: int|
            k != found ==> vstd::math::abs(p - spec_pitch_of(s, km, k)) > vstd::math::abs(dev)
                || (vstd::math::abs(p - spec_pitch_of(s, km, k)) == vstd::math::abs(dev)
                && found < k),
    ensures
        found == key,
        dev == 0,
{
    if found != key {
        assert(vstd::math::abs(p - spec_pitch_of(s, km, key)) == 0);
        assert(vstd::math::abs(dev) == 0);
        assert(spec_pitch_of(s, km, found) == spec_pitch_of(s, km, key));
        if found < key {
            lemma_pitch_of_strictly_increasing(s, km, found, key);
        } else {
            lemma_pitch_of_strictly_increasing(s, km, key, found);
        }
        assert(false);
    }
}

/// A tuning with no scale at all: every note at its twelve-tone
/// equal-tempered pitch relative to a chosen A4.
#[derive(Clone, Copy, Debug, PartialEq, Eq, Structural)]
pub struct ConcertPitch {
    a4_pitch: Pitch,
}

/// The equal-tempered pitch of MIDI note `n` under concert pitch `a4`.
pub open spec fn spec_concert_pitch_of(a4: int, n: int) -> int {
    a4 + (n - 69) * SEMITONE_UNITS
}

impl ConcertPitch {
    /// The A4 anchor, for use in contracts.
    pub closed spec fn spec_a4(&self) -> int {
        self.a4_pitch@
    }

    /// Bounds under which concert-pitch arithmetic cannot overflow.
    pub open spec fn valid(&self) -> bool {
        -0x8000_0000_0000 <= self.spec_a4() <= 0x8000_0000_0000
    }

    /// A concert pitch with an explicitly chosen A4.
    pub fn from_a4_pitch(a4_pitch: Pitch) -> (r: ConcertPitch)
        ensures
            r.spec_a4() == a4_pitch@,
    {
        ConcertPitch { a4_pitch }
    }

    /// The standard concert pitch: A4 = 440 Hz.
    pub fn standard() -> (r: ConcertPitch)
        ensures
            r.spec_a4() == 0,
            r.valid(),
    {
        ConcertPitch { a4_pitch: Pitch::concert_a4() }
    }

    /// The equal-tempered pitch of a note.
    pub fn pitch_of(&self, note: Note) -> (r: Pitch)
        requires
            self.valid(),
            -1000000 <= note@ <= 1000000,
        ensures
            r@ == spec_concert_pitch_of(self.spec_a4(), note@),
    {
        let units = self.a4_pitch.as_fixed() + (note.midi_number() as i64 - 69)
            * SEMITONE_UNITS;
        Pitch::from_fixed(units)
    }

    /// The note nearest to a pitch in twelve-tone equal temperament, with
    /// the signed deviation of the pitch from the note.  Of two equally
    /// distant notes the lower one is returned.
    pub fn find_by_pitch(&self, pitch: Pitch) -> (r: Approximation<Note>)
        requires
            self.valid(),
            -104857600000000 <= pitch@ - self.spec_a4() <= 104857600000000,
        ensures
            r.deviation@ == pitch@ - spec_concert_pitch_of(self.spec_a4(), r.approx_value@),
            forall|k: int|
                k != r.approx_value@ ==> vstd::math::abs(
                    pitch@ - spec_concert_pitch_of(self.spec_a4(), k),
                ) > vstd::math::abs(r.deviation@) || (vstd::math::abs(
                    pitch@ - spec_concert_pitch_of(self.spec_a4(), k),
                ) == vstd::math::abs(r.deviation@) && r.approx_value@ < k),
    {
        let rel = pitch.as_fixed() - self.a4_pitch.as_fixed();
        let q = floor_div(rel, SEMITONE_UNITS);
        let rem = floor_mod(rel, SEMITONE_UNITS);
        proof {
            lemma_fundamental_div_mod(rel as int, SEMITONE_UNITS as int);
            assert(rem == rel - q * SEMITONE_UNITS) by {
                assert(rel as int == (SEMITONE_UNITS as int) * (q as int) + (rem as int));
            }
            assert(-1000001 <= q <= 1000000) by (nonlinear_arith)
                requires
                    rel as int == (SEMITONE_UNITS as int) * (q as int) + (rem as int),
                    0 <= rem < SEMITONE_UNITS as int,
                    -104857600000000 <= rel <= 104857600000000,
                    SEMITONE_UNITS == 104857600,
            ;
        }
        let (n, dev) = if 2 * rem <= SEMITONE_UNITS {
            (69 + q, rem)
        } else {
            (70 + q, rem - SEMITONE_UNITS)
        };
        proof {
            let a4 = self.spec_a4();
            let chosen = n as int;
            assert(spec_concert_pitch_of(a4, chosen) == a4 + (chosen - 69) * SEMITONE_UNITS);
            assert((chosen - 69) * SEMITONE_UNITS == (q as int) * SEMITONE_UNITS + (if 2 * rem
                <= SEMITONE_UNITS {
                0int
            } else {
                SEMITONE_UNITS as int
            })) by (nonlinear_arith)
                requires
                    chosen == if 2 * rem <= SEMITONE_UNITS {
                        69 + q as int
                    } else {
                        70 + q as int
                    },
            ;
            assert forall|k: int| k != chosen implies vstd::math::abs(
                pitch@ - spec_concert_pitch_of(a4, k),
            ) > vstd::math::abs(dev as int) || (vstd::math::abs(
                pitch@ - spec_concert_pitch_of(a4, k),
            ) == vstd::math::abs(dev as int) && chosen < k) by {
                let m = k - 69;
                let dist = pitch@ - spec_concert_pitch_of(a4, k);
                assert(dist == rel - m * SEMITONE_UNITS);
                assert(rel - m * SEMITONE_UNITS == (q as int - m) * SEMITONE_UNITS + rem)
                    by (nonlinear_arith)
                    requires
                        rel as int == (SEMITONE_UNITS as int) * (q as int) + (rem as int),
                ;
                if m <= q as int - 1 {
                    assert((q as int - m) * SEMITONE_UNITS >= SEMITONE_UNITS)
                        by (nonlinear_arith)
                        requires
                            q as int - m >= 1,
                            SEMITONE_UNITS > 0,
                    ;
                } else if m >= q as int + 2 {
                    assert((q as int - m) * SEMITONE_UNITS <= -2 * SEMITONE_UNITS)
                        by (nonlinear_arith)
                        requires
                            q as int - m <= -2,
                            SEMITONE_UNITS > 0,
                    ;
                } else if m == q as int {
                    assert((q as int - m) * SEMITONE_UNITS == 0) by (nonlinear_arith)
                        requires
                            m == q as int,
                    ;
                } else {
                    assert(m == q as int + 1);
                    assert((q as int - m) * SEMITONE_UNITS == -SEMITONE_UNITS)
                        by (nonlinear_arith)
                        requires
                            m == q as int + 1,
                    ;
                }
            }
        }
        Approximation {
            approx_value: Note::from_midi_number(n as i32),
            deviation: Ratio::from_fixed(dev),
        }
    }
}

} // verus!
