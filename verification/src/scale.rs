//! Scales: named, strictly increasing interval sequences and the four
//! generators that produce them.
//!
//! A scale stores the intervals from its implicit root in ascending order;
//! the last entry is the period at which the scale repeats.  Degree zero,
//! the root itself, is implicit.

use crate::math::spec_floor_mod;
use crate::ratio::{ParsedRatio, Ratio, MAX_RATIO_UNITS};
use vstd::prelude::*;
use vstd::string::StringExecFns;

verus! {

/// The most entries a scale can hold.
pub const MAX_SCALE_LEN: usize = 65536;

/// Well-formedness of a scale's interval sequence: non-empty, bounded,
/// every entry positive and at most the crate-wide interval limit, and
/// strictly increasing.  The final entry is the period.
pub open spec fn entries_wf(s: Seq<int>) -> bool {
    &&& 1 <= s.len() <= 65536
    &&& (forall|i: int| 0 <= i < s.len() ==> 0 < #[trigger] s[i] <= MAX_RATIO_UNITS)
    &&& (forall|i: int, j: int| 0 <= i < j < s.len() ==> s[i] < s[j])
}

/// Why a scale could not be built.
#[derive(Clone, Copy, Debug, PartialEq, Eq, Structural)]
pub enum ScaleError {
    /// No intervals were given.
    Empty,
    /// More intervals than [`MAX_SCALE_LEN`].
    TooLong,
    /// An interval is not positive or exceeds the crate-wide limit.
    OutOfRange,
    /// The intervals are not strictly increasing.
    NonMonotonic,
}

impl ScaleError {
    /// A human-readable description of the error, fixed per variant.
    pub fn message(&self) -> (s: String)
        ensures
            self is Empty ==> s@ == "scale must not be empty"@,
            self is TooLong ==> s@ == "scale has too many intervals"@,
            self is OutOfRange ==> s@ == "scale interval out of range"@,
            self is NonMonotonic ==> s@ == "scale intervals must increase strictly"@,
    {
        match self {
            ScaleError::Empty => String::from_str("scale must not be empty"),
            ScaleError::TooLong => String::from_str("scale has too many intervals"),
            ScaleError::OutOfRange => String::from_str("scale interval out of range"),
            ScaleError::NonMonotonic => String::from_str(
                "scale intervals must increase strictly",
            ),
        }
    }
}

/// An ordered, named sequence of intervals measured from an implicit root.
#[derive(Debug)]
pub struct Scale {
    name: String,
    entries: Vec<i64>,
}

impl Scale {
    /// The interval sequence, for use in contracts.
    pub closed spec fn spec_entries(&self) -> Seq<int> {
        self.entries@.map(|_i: int, x: i64| x as int)
    }

    /// The scale's name, for use in contracts.
    pub closed spec fn spec_name(&self) -> Seq<char> {
        self.name@
    }

    /// The scale invariant every constructor establishes.
    pub open spec fn wf(&self) -> bool {
        entries_wf(self.spec_entries())
    }

    /// The scale's name.
    pub fn name(&self) -> (r: &str)
        ensures
            r@ == self.spec_name(),
    {
        self.name.as_str()
    }

    /// The number of stored intervals, the period included.
    pub fn num_entries(&self) -> (r: usize)
        ensures
            r == self.spec_entries().len(),
    {
        self.entries.len()
    }

    /// The `i`-th stored interval, counted from zero.
    pub fn entry(&self, i: usize) -> (r: Ratio)
        requires
            i < self.spec_entries().len(),
        ensures
            r@ == self.spec_entries()[i as int],
    {
        Ratio::from_fixed(self.entries[i])
    }

    /// The period: the final, largest interval.
    pub fn period(&self) -> (r: Ratio)
        requires
            self.wf(),
        ensures
            r@ == self.spec_entries().last(),
    {
        Ratio::from_fixed(self.entries[self.entries.len() - 1])
    }

    /// Starts building a scale with the given name.
    pub fn with_name(name: String) -> (b: ScaleBuilder)
        ensures
            b.spec_entries() == Seq::<int>::empty(),
            b.spec_name() == name@,
    {
        ScaleBuilder { name, entries: Vec::new() }
    }
}

/// Accumulates intervals for a custom scale; [`ScaleBuilder::build`]
/// validates them.
pub struct ScaleBuilder {
    name: String,
    entries: Vec<i64>,
}

impl ScaleBuilder {
    /// The intervals pushed so far, for use in contracts.
    pub closed spec fn spec_entries(&self) -> Seq<int> {
        self.entries@.map(|_i: int, x: i64| x as int)
    }

    /// The scale name, for use in contracts.
    pub closed spec fn spec_name(&self) -> Seq<char> {
        self.name@
    }

    /// Appends one interval.
    pub fn push_ratio(&mut self, ratio: Ratio)
        ensures
            final(self).spec_entries() == old(self).spec_entries().push(ratio@),
            final(self).spec_name() == old(self).spec_name(),
    {
        let u = ratio.as_fixed();
        self.entries.push(u);
        proof {
            assert(self.spec_entries() =~= old(self).spec_entries().push(ratio@));
        }
    }

    /// Validates the accumulated intervals and builds the scale.  Succeeds
    /// exactly when they are well formed: non-empty, not too many, in
    /// range, strictly increasing.
    pub fn build(self) -> (r: Result<Scale, ScaleError>)
        ensures
            match r {
                Ok(sc) => {
                    &&& entries_wf(self.spec_entries())
                    &&& sc.spec_entries() == self.spec_entries()
                    &&& sc.spec_name() == self.spec_name()
                    &&& sc.wf()
                },
                Err(e) => {
                    &&& !entries_wf(self.spec_entries())
                    &&& (e == ScaleError::Empty <==> self.spec_entries().len() == 0)
                },
            },
    {
        let len = self.entries.len();
        if len == 0 {
            return Err(ScaleError::Empty);
        }
        if len > MAX_SCALE_LEN {
            return Err(ScaleError::TooLong);
        }
        let mut i: usize = 0;
        while i < len
            invariant
                i <= len == self.entries@.len() <= 65536,
                forall|k: int|
                    0 <= k < i ==> 0 < #[trigger] self.spec_entries()[k] <= MAX_RATIO_UNITS,
                forall|k: int|
                    0 < k < i ==> self.spec_entries()[k - 1] < #[trigger] self.spec_entries()[k],
            decreases len - i,
        {
            let e = self.entries[i];
            proof {
                assert(self.spec_entries()[i as int] == e);
            }
            if e <= 0 || e > MAX_RATIO_UNITS {
                return Err(ScaleError::OutOfRange);
            }
            if i > 0 && self.entries[i - 1] >= e {
                proof {
                    assert(self.spec_entries()[i - 1] >= self.spec_entries()[i as int]);
                }
                return Err(ScaleError::NonMonotonic);
            }
            i = i + 1;
        }
        proof {
            assert forall|a: int, b: int|
                0 <= a < b < self.spec_entries().len() implies self.spec_entries()[a]
                < self.spec_entries()[b] by {
                lemma_adjacent_sorted(self.spec_entries(), a, b);
            }
        }
        Ok(Scale { name: self.name, entries: self.entries })
    }
}

/// A sequence whose adjacent entries increase strictly is strictly
/// increasing everywhere.
proof fn lemma_adjacent_sorted(s: Seq<int>, a: int, b: int)
    requires
        forall|k: int| 0 < k < s.len() ==> s[k - 1] < #[trigger] s[k],
        0 <= a < b < s.len(),
    ensures
        s[a] < s[b],
    decreases b - a,
{
    if a + 1 < b {
        lemma_adjacent_sorted(s, a + 1, b);
    }
}

/// Builds an equal-temperament scale from a parsed step expression: the
/// entries are the step interval stacked one to `n` times, `n` being the
/// number of divisions the step's own syntax implies; the last entry is
/// the period.
pub fn create_equal_temperament_scale(step: ParsedRatio) -> (r: Result<Scale, ScaleError>)
    ensures
        match r {
            Ok(sc) => {
                &&& 0 < step.ratio@
                &&& step.divisions * step.ratio@ <= MAX_RATIO_UNITS
                &&& sc.wf()
                &&& sc.spec_entries().len() == step.divisions
                &&& (forall|i: int|
                    0 <= i < step.divisions ==> #[trigger] sc.spec_entries()[i] == (i + 1)
                        * step.ratio@)
            },
            Err(e) => {
                &&& !(0 < step.ratio@ && step.divisions * step.ratio@ <= MAX_RATIO_UNITS && 1
                    <= step.divisions)
                &&& e == ScaleError::OutOfRange
            },
        },
{
    let s = step.ratio.as_fixed();
    let n = step.divisions as usize;
    if s <= 0 || n == 0 {
        return Err(ScaleError::OutOfRange);
    }
    if s > MAX_RATIO_UNITS {
        proof {
            assert(step.divisions * step.ratio@ >= step.ratio@) by (nonlinear_arith)
                requires
                    1 <= step.divisions,
                    0 < step.ratio@,
            ;
        }
        return Err(ScaleError::OutOfRange);
    }
    proof {
        assert((n as int) * s <= 65535 * 4194304000000int) by (nonlinear_arith)
            requires
                0 < s <= 4194304000000int,
                n as int <= 65535,
        ;
    }
    if (n as i64) * s > MAX_RATIO_UNITS {
        return Err(ScaleError::OutOfRange);
    }
    let mut entries: Vec<i64> = Vec::new();
    let mut i: usize = 0;
    while i < n
        invariant
            i <= n <= 65535,
            0 < s,
            (n as int) * s <= MAX_RATIO_UNITS,
            entries@.len() == i,
            forall|k: int| 0 <= k < i ==> #[trigger] entries@[k] == (k + 1) * s,
        decreases n - i,
    {
        proof {
            assert((i + 1) * s <= (n as int) * s) by (nonlinear_arith)
                requires
                    0 < s,
                    i + 1 <= n as int,
            ;
            assert(0 < (i + 1) * s) by (nonlinear_arith)
                requires
                    0 < s,
                    0 < i + 1,
            ;
        }
        entries.push((i as i64 + 1) * s);
        i = i + 1;
    }
    let mut name = String::new();
    name.append("equal steps of ");
    proof {
        assert(s <= (n as int) * s) by (nonlinear_arith)
            requires
                0 < s,
                1 <= n as int,
        ;
    }
    name.append(step.ratio.to_text().as_str());
    let sc = Scale { name, entries };
    proof {
        assert forall|a: int, b: int|
            0 <= a < b < sc.spec_entries().len() implies sc.spec_entries()[a]
            < sc.spec_entries()[b] by {
            assert(sc.spec_entries()[a] == (a + 1) * s);
            assert(sc.spec_entries()[b] == (b + 1) * s);
            assert((a + 1) * s < (b + 1) * s) by (nonlinear_arith)
                requires
                    0 < s,
                    a < b,
            ;
        }
        assert forall|i2: int|
            0 <= i2 < sc.spec_entries().len() implies 0 < #[trigger] sc.spec_entries()[i2]
            <= MAX_RATIO_UNITS by {
            assert(sc.spec_entries()[i2] == (i2 + 1) * s);
            assert(0 < (i2 + 1) * s && (i2 + 1) * s <= (n as int) * s) by (nonlinear_arith)
                requires
                    0 < s,
                    0 <= i2 < n as int,
            ;
        }
    }
    Ok(sc)
}

/// Builds a custom scale from an explicit interval list and a name.
/// Succeeds exactly when the list is well formed per [`entries_wf`]:
/// non-empty and strictly increasing, as the scale model demands, and
/// within two machine limits that the fixed-point domain forces — every
/// interval positive and at most [`crate::ratio::MAX_RATIO_UNITS`]
/// (an interval at or below the unison would break the strictly
/// increasing key-to-pitch mapping), and at most [`MAX_SCALE_LEN`]
/// intervals.
pub fn create_custom_scale(items: Vec<Ratio>, name: String) -> (r: Result<Scale, ScaleError>)
    ensures
        ({
            let want = items@.map(|_i: int, x: Ratio| x@);
            match r {
                Ok(sc) => {
                    &&& entries_wf(want)
                    &&& sc.spec_entries() == want
                    &&& sc.spec_name() == name@
                    &&& sc.wf()
                },
                Err(e) => {
                    &&& !entries_wf(want)
                    &&& (e == ScaleError::Empty <==> want.len() == 0)
                },
            }
        }),
{
    let ghost want = items@.map(|_i: int, x: Ratio| x@);
    let mut builder = Scale::with_name(name);
    let mut i: usize = 0;
    while i < items.len()
        invariant
            i <= items@.len(),
            builder.spec_entries() == want.subrange(0, i as int),
            builder.spec_name() == name@,
            want == items@.map(|_i: int, x: Ratio| x@),
        decreases items@.len() - i,
    {
        builder.push_ratio(items[i]);
        proof {
            assert(builder.spec_entries() =~= want.subrange(0, i + 1));
        }
        i = i + 1;
    }
    proof {
        assert(builder.spec_entries() =~= want);
    }
    builder.build()
}

/// A scale-generation command: the closed set of generator policies,
/// dispatched once by [`create_scale`] into a single [`Scale`] value.
pub enum ScaleCommand {
    /// Equal temperament: the step stacked as many times as its step
    /// notation implies.
    EqualTemperament { step_size: ParsedRatio },
    /// Rank-2 temperament: a finite generator inside a repeating period.
    Rank2Temperament {
        generator: Ratio,
        num_pos_generations: u16,
        num_neg_generations: u16,
        period: Ratio,
    },
    /// A slice of the harmonic (or subharmonic) series.
    HarmonicSeries { lowest_harmonic: u32, number_of_notes: u32, subharmonics: bool },
    /// An explicit interval list.
    Custom { items: Vec<Ratio>, name: String },
}

/// Dispatches a scale-generation command to its generator.  The resulting
/// scale is exactly what the corresponding generator returns, so each
/// generator's own contract applies.
pub fn create_scale(command: ScaleCommand) -> (r: Result<Scale, ScaleError>)
    requires
        command is Rank2Temperament ==> -MAX_RATIO_UNITS <= command->Rank2Temperament_generator@
            <= MAX_RATIO_UNITS,
    ensures
        r is Ok ==> r->Ok_0.wf(),
        ({
            match command {
                ScaleCommand::Custom { items, name } => {
                    let want = items@.map(|_i: int, x: Ratio| x@);
                    match r {
                        Ok(sc) => entries_wf(want) && sc.spec_entries() == want
                            && sc.spec_name() == name@,
                        Err(e) => !entries_wf(want),
                    }
                },
                ScaleCommand::EqualTemperament { step_size } => match r {
                    Ok(sc) => {
                        &&& 0 < step_size.ratio@
                        &&& sc.spec_entries().len() == step_size.divisions
                        &&& (forall|i: int|
                            0 <= i < step_size.divisions ==> #[trigger] sc.spec_entries()[i]
                                == (i + 1) * step_size.ratio@)
                    },
                    Err(e) => !(0 < step_size.ratio@ && step_size.divisions * step_size.ratio@
                        <= MAX_RATIO_UNITS && 1 <= step_size.divisions),
                },
                ScaleCommand::Rank2Temperament {
                    generator,
                    num_pos_generations,
                    num_neg_generations,
                    period,
                } => {
                    let raw = rank2_raw(
                        generator@,
                        num_pos_generations as int,
                        num_neg_generations as int,
                        period@,
                    );
                    match r {
                        Ok(sc) => sc.spec_entries().len() == num_pos_generations
                            + num_neg_generations + 1 && sc.spec_entries().last() == period@
                            && sc.spec_entries().take(
                            num_pos_generations + num_neg_generations,
                        ).to_multiset() == raw.to_multiset(),
                        Err(e) => !(0 < period@ <= MAX_RATIO_UNITS && num_pos_generations
                            + num_neg_generations + 1 <= 65536 && raw.no_duplicates()
                            && !raw.contains(0)),
                    }
                },
                ScaleCommand::HarmonicSeries { lowest_harmonic, number_of_notes, subharmonics } => {
                    let h = lowest_harmonic as int;
                    let n = number_of_notes as int;
                    match r {
                        Ok(sc) => {
                            &&& 1 <= h
                            &&& 1 <= n <= 65535
                            &&& sc.spec_entries().len() == n
                            &&& (forall|k: int|
                                0 <= k < n ==> crate::ratio::fraction_units(
                                    harmonic_num(h, n, subharmonics, k) as nat,
                                    harmonic_den(h, n, subharmonics, k) as nat,
                                    #[trigger] sc.spec_entries()[k],
                                ))
                        },
                        Err(e) => harmonics_rejected(h, n, subharmonics),
                    }
                },
            }
        }),
{
    match command {
        ScaleCommand::EqualTemperament { step_size } => create_equal_temperament_scale(
            step_size,
        ),
        ScaleCommand::Rank2Temperament {
            generator,
            num_pos_generations,
            num_neg_generations,
            period,
        } => create_rank2_temperament_scale(
            generator,
            num_pos_generations,
            num_neg_generations,
            period,
        ),
        ScaleCommand::HarmonicSeries {
            lowest_harmonic,
            number_of_notes,
            subharmonics,
        } => create_harmonics_scale(lowest_harmonic, number_of_notes, subharmonics),
        ScaleCommand::Custom { items, name } => create_custom_scale(items, name),
    }
}

/// The generated pitches of a rank-2 temperament before sorting: `pos`
/// upward stacks and `neg` downward stacks of the generator `g`, each
/// reduced into `[0, p)` by the period `p`.
pub open spec fn rank2_raw(g: int, pos: int, neg: int, p: int) -> Seq<int> {
    Seq::new(
        (pos + neg) as nat,
        |i: int|
            if i < pos {
                spec_floor_mod((i + 1) * g, p)
            } else {
                spec_floor_mod(-(i - pos + 1) * g, p)
            },
    )
}

/// A sequence with two equal entries has a multiset count of at least two
/// for that value.
proof fn lemma_dup_count(s: Seq<int>, i: int, j: int)
    requires
        0 <= i < j < s.len(),
        s[i] == s[j],
    ensures
        s.to_multiset().count(s[i]) >= 2,
{
    broadcast use vstd::seq_lib::group_to_multiset_ensures;

    let s0 = s.subrange(0, j);
    let s1 = s.subrange(j, s.len() as int);
    assert(s =~= s0 + s1);
    vstd::seq_lib::lemma_multiset_commutative(s0, s1);
    assert(s0.to_multiset().contains(s[i]));
    assert(s1.to_multiset().contains(s[j]));
    assert(s0.to_multiset().count(s[i]) >= 1);
    assert(s1.to_multiset().count(s[j]) >= 1);
}

/// Inserts `x` into an ascending vector, keeping it ascending; the view
/// gains exactly one occurrence of `x`.
fn insert_sorted(v: &mut Vec<i64>, x: i64)
    requires
        old(v)@.len() < 65536,
        forall|a: int, b: int| 0 <= a <= b < old(v)@.len() ==> old(v)@[a] <= old(v)@[b],
    ensures
        final(v)@.len() == old(v)@.len() + 1,
        forall|a: int, b: int| 0 <= a <= b < final(v)@.len() ==> final(v)@[a] <= final(v)@[b],
        final(v)@.map(|_i: int, e: i64| e as int).to_multiset() == old(v)@.map(
            |_i: int, e: i64| e as int,
        ).to_multiset().insert(x as int),
{
    broadcast use vstd::seq_lib::group_to_multiset_ensures;

    let mut idx: usize = 0;
    while idx < v.len() && v[idx] <= x
        invariant
            idx <= v@.len(),
            forall|a: int| 0 <= a < idx ==> v@[a] <= x,
            v == old(v),
        decreases v@.len() - idx,
    {
        idx = idx + 1;
    }
    let ghost before = v@;
    v.insert(idx, x);
    proof {
        assert(v@ =~= before.insert(idx as int, x));
        let mapped = v@.map(|_i: int, e: i64| e as int);
        let mapped_before = before.map(|_i: int, e: i64| e as int);
        assert(mapped =~= mapped_before.insert(idx as int, x as int));
        vstd::seq_lib::to_multiset_insert(mapped_before, idx as int, x as int);
        assert forall|a: int, b: int| 0 <= a <= b < v@.len() implies v@[a] <= v@[b] by {
            if b < idx {
            } else if a > idx {
                assert(v@[a] == before[a - 1] && v@[b] == before[b - 1]);
            } else if a == idx && b == idx {
            } else if b == idx {
                assert(v@[a] == before[a]);
                assert(before[a] <= x);
            } else if a == idx {
                assert(v@[b] == before[b - 1]);
                assert(idx < before.len() ==> x < before[idx as int] || before[idx as int]
                    <= x);
                assert(b - 1 >= idx);
                assert(before[idx as int] <= before[b - 1]);
                assert(x < before[idx as int]) by {
                    assert(!(idx < before.len() && before[idx as int] <= x));
                }
            } else {
                assert(v@[a] == before[a] && v@[b] == before[b - 1]);
                assert(before[a] <= before[b - 1]);
            }
        }
    }
}

/// Builds a rank-2 temperament: `num_pos_generations` upward and
/// `num_neg_generations` downward stacks of the generator, each reduced
/// into one period, sorted ascending, with the period appended.  Succeeds
/// exactly when the period is in range and the reduced pitches are
/// pairwise distinct and distinct from the root.
pub fn create_rank2_temperament_scale(
    generator: Ratio,
    num_pos_generations: u16,
    num_neg_generations: u16,
    period: Ratio,
) -> (r: Result<Scale, ScaleError>)
    requires
        -MAX_RATIO_UNITS <= generator@ <= MAX_RATIO_UNITS,
    ensures
        ({
            let raw = rank2_raw(
                generator@,
                num_pos_generations as int,
                num_neg_generations as int,
                period@,
            );
            let ok_conditions = {
                &&& 0 < period@ <= MAX_RATIO_UNITS
                &&& num_pos_generations + num_neg_generations + 1 <= 65536
                &&& raw.no_duplicates()
                &&& !raw.contains(0)
            };
            match r {
                Ok(sc) => {
                    &&& ok_conditions
                    &&& sc.wf()
                    &&& sc.spec_entries().len() == num_pos_generations + num_neg_generations
                        + 1
                    &&& sc.spec_entries().last() == period@
                    &&& sc.spec_entries().take(
                        num_pos_generations + num_neg_generations,
                    ).to_multiset() == raw.to_multiset()
                },
                Err(e) => !ok_conditions,
            }
        }),
{
    broadcast use vstd::seq_lib::group_to_multiset_ensures;
    broadcast use vstd::multiset::group_multiset_axioms;

    let p = period.as_fixed();
    if p <= 0 || p > MAX_RATIO_UNITS {
        return Err(ScaleError::OutOfRange);
    }
    if num_pos_generations as usize + num_neg_generations as usize + 1 > MAX_SCALE_LEN {
        return Err(ScaleError::TooLong);
    }
    let g = generator.as_fixed();
    let pos = num_pos_generations as usize;
    let neg = num_neg_generations as usize;
    let ghost raw = rank2_raw(g as int, pos as int, neg as int, p as int);
    proof {
        assert(raw =~= rank2_raw(
            generator@,
            num_pos_generations as int,
            num_neg_generations as int,
            period@,
        ));
    }

    // Generate the reduced pitches in raw order.
    let mut vals: Vec<i64> = Vec::new();
    let mut i: usize = 0;
    while i < pos
        invariant
            i <= pos <= 65535,
            neg <= 65535,
            0 < p <= MAX_RATIO_UNITS,
            -MAX_RATIO_UNITS <= g <= MAX_RATIO_UNITS,
            raw == rank2_raw(g as int, pos as int, neg as int, p as int),
            vals@.len() == i,
            forall|k: int| 0 <= k < i ==> (#[trigger] vals@[k]) as int == raw[k],
        decreases pos - i,
    {
        proof {
            assert(((i + 1) as int) * (g as int) <= 65536 * 4194304000000int
                && -65536 * 4194304000000int <= ((i + 1) as int) * (g as int))
                by (nonlinear_arith)
                requires
                    -4194304000000int <= g <= 4194304000000int,
                    0 < i + 1 <= 65536,
            ;
        }
        let x = crate::math::floor_mod((i as i64 + 1) * g, p);
        vals.push(x);
        i = i + 1;
    }
    let mut j: usize = 0;
    while j < neg
        invariant
            j <= neg <= 65535,
            pos <= 65535,
            0 < p <= MAX_RATIO_UNITS,
            -MAX_RATIO_UNITS <= g <= MAX_RATIO_UNITS,
            raw == rank2_raw(g as int, pos as int, neg as int, p as int),
            vals@.len() == pos + j,
            forall|k: int| 0 <= k < pos + j ==> (#[trigger] vals@[k]) as int == raw[k],
        decreases neg - j,
    {
        proof {
            assert(((j + 1) as int) * (g as int) <= 65536 * 4194304000000int
                && -65536 * 4194304000000int <= ((j + 1) as int) * (g as int))
                by (nonlinear_arith)
                requires
                    -4194304000000int <= g <= 4194304000000int,
                    0 < j + 1 <= 65536,
            ;
        }
        let x = crate::math::floor_mod(-(((j as i64) + 1) * g), p);
        vals.push(x);
        proof {
            assert(-((((j + 1) as int)) * (g as int)) == (-(((j + 1) as int))) * (g as int))
                by (nonlinear_arith);
            assert(raw[(pos + j) as int] == spec_floor_mod(
                -(((j + 1) as int)) * (g as int),
                p as int,
            ));
            assert((vals@[(pos + j) as int]) as int == raw[(pos + j) as int]);
        }
        j = j + 1;
    }
    proof {
        assert(vals@.map(|_i: int, e: i64| e as int) =~= raw);
    }

    // Sort ascending.
    let mut sorted: Vec<i64> = Vec::new();
    let mut k: usize = 0;
    while k < vals.len()
        invariant
            k <= vals@.len(),
            vals@.len() == pos + neg <= 65535,
            sorted@.len() == k,
            forall|a: int, b: int| 0 <= a <= b < sorted@.len() ==> sorted@[a] <= sorted@[b],
            sorted@.map(|_i: int, e: i64| e as int).to_multiset() == vals@.map(
                |_i: int, e: i64| e as int,
            ).subrange(0, k as int).to_multiset(),
        decreases vals@.len() - k,
    {
        let ghost mv = vals@.map(|_i: int, e: i64| e as int);
        insert_sorted(&mut sorted, vals[k]);
        proof {
            assert(mv.subrange(0, (k + 1) as int) =~= mv.subrange(0, k as int).push(
                mv[k as int],
            ));
            vstd::seq_lib::to_multiset_build(mv.subrange(0, k as int), mv[k as int]);
        }
        k = k + 1;
    }
    proof {
        let mv = vals@.map(|_i: int, e: i64| e as int);
        assert(mv.subrange(0, mv.len() as int) =~= mv);
    }

    // Validate: pairwise distinct and distinct from the implicit root.
    let ghost ms = sorted@.map(|_i: int, e: i64| e as int);
    proof {
        assert forall|x: int| raw.contains(x) implies 0 <= x < p as int by {
            let z = choose|z: int| 0 <= z < raw.len() && raw[z] == x;
            vstd::arithmetic::div_mod::lemma_mod_bound((z + 1) * (g as int), p as int);
            vstd::arithmetic::div_mod::lemma_mod_bound(
                -(z - pos + 1) * (g as int),
                p as int,
            );
        }
        assert forall|a: int| 0 <= a < ms.len() implies 0 <= #[trigger] ms[a] < p as int by {
            assert(ms.to_multiset().contains(ms[a]));
            assert(raw.to_multiset().contains(ms[a]));
            assert(raw.contains(ms[a]));
        }
    }
    if sorted.len() > 0 && sorted[0] <= 0 {
        proof {
            assert(ms[0] == 0);
            assert(ms.contains(0int));
            assert(ms.to_multiset().contains(0int));
            assert(raw.to_multiset().contains(0int));
            assert(raw.contains(0int));
        }
        return Err(ScaleError::OutOfRange);
    }
    let mut t: usize = 1;
    while t < sorted.len()
        invariant
            1 <= t <= sorted@.len() || sorted@.len() == 0,
            ms == sorted@.map(|_i: int, e: i64| e as int),
            forall|a: int, b: int| 0 <= a <= b < sorted@.len() ==> sorted@[a] <= sorted@[b],
            forall|a: int| 0 < a < t ==> ms[a - 1] < #[trigger] ms[a],
            ms.to_multiset() == raw.to_multiset(),
            raw == rank2_raw(
                generator@,
                num_pos_generations as int,
                num_neg_generations as int,
                period@,
            ),
        decreases sorted@.len() - t,
    {
        if sorted[t - 1] >= sorted[t] {
            // A duplicate: the raw pitches were not pairwise distinct.
            proof {
                assert(sorted@[t - 1] <= sorted@[t as int]);
                assert(ms[t - 1] == ms[t as int]);
                lemma_dup_count(ms, t - 1, t as int);
                if raw.no_duplicates() {
                    raw.lemma_multiset_has_no_duplicates();
                    assert(ms.to_multiset().count(ms[t - 1]) >= 2);
                    assert(raw.to_multiset().count(ms[t - 1]) >= 2);
                    assert(raw.to_multiset().contains(ms[t - 1]));
                    assert(raw.to_multiset().count(ms[t - 1]) == 1);
                    assert(false);
                }
                assert(!raw.no_duplicates());
            }
            return Err(ScaleError::NonMonotonic);
        }
        t = t + 1;
    }
    proof {
        assert forall|a: int, b: int| 0 <= a < b < ms.len() implies ms[a] < ms[b] by {
            lemma_adjacent_sorted(ms, a, b);
        }
    }

    let mut entries = sorted;
    let ghost before_period = entries@.map(|_i: int, e: i64| e as int);
    entries.push(p);
    let mut name = String::new();
    name.append("rank-2 temperament");
    let sc = Scale { name, entries };
    proof {
        assert(before_period =~= ms);
        assert(sc.spec_entries() =~= before_period.push(p as int));
        assert(sc.spec_entries().take(sc.spec_entries().len() - 1) =~= before_period);
        // Distinctness of the raw pitches follows from the strictly
        // ascending sorted sequence through the multiset equality.
        assert(before_period.no_duplicates());
        before_period.lemma_multiset_has_no_duplicates();
        raw.lemma_multiset_has_no_duplicates_conv();
        assert(!raw.contains(0)) by {
            if raw.contains(0) {
                assert(raw.to_multiset().contains(0int));
                assert(before_period.to_multiset().contains(0int));
                assert(before_period.contains(0int));
                let z = choose|z: int| 0 <= z < before_period.len() && before_period[z] == 0;
                assert(before_period[0] <= before_period[z]) by {
                    if z > 0 {
                        lemma_adjacent_sorted(before_period, 0, z);
                    }
                }
                assert(false);
            }
        }
        // Every entry is positive and below the period.
        assert forall|a: int| 0 <= a < sc.spec_entries().len() implies 0
            < #[trigger] sc.spec_entries()[a] <= MAX_RATIO_UNITS by {
            if a < before_period.len() {
                assert(before_period.to_multiset().contains(before_period[a]));
                assert(raw.to_multiset().contains(before_period[a]));
                assert(raw.contains(before_period[a]));
                assert(before_period[a] < p as int);
                assert(before_period[0] > 0);
                if a > 0 {
                    lemma_adjacent_sorted(before_period, 0, a);
                }
            }
        }
        assert forall|a: int, b: int|
            0 <= a < b < sc.spec_entries().len() implies sc.spec_entries()[a]
            < sc.spec_entries()[b] by {
            if b < before_period.len() {
                lemma_adjacent_sorted(before_period, a, b);
            } else {
                assert(sc.spec_entries()[b] == p as int);
            }
        }
    }
    Ok(sc)
}

/// The numerator of the `k`-th interval of a harmonic-series scale.
pub open spec fn harmonic_num(h: int, n: int, subharmonics: bool, k: int) -> int {
    if subharmonics {
        h + n
    } else {
        h + k + 1
    }
}

/// The denominator of the `k`-th interval of a harmonic-series scale.
pub open spec fn harmonic_den(h: int, n: int, subharmonics: bool, k: int) -> int {
    if subharmonics {
        h + n - 1 - k
    } else {
        h
    }
}

/// The condition under which a harmonic-series scale cannot be built:
/// a zero harmonic or count, a count beyond the scale-length cap, a
/// harmonic pair outside the logarithm kernel's range, or a pair of
/// consecutive bracketed intervals that fails to ascend (the monotonicity
/// that is validated, not assumed).
pub open spec fn harmonics_rejected(h: int, n: int, subharmonics: bool) -> bool {
    ||| h < 1
    ||| n < 1
    ||| n > 65535
    ||| exists|k: int|
        0 <= k < n && !crate::ratio::rational_in_range(
            #[trigger] harmonic_num(h, n, subharmonics, k) as nat,
            harmonic_den(h, n, subharmonics, k) as nat,
        )
    ||| exists|u: int|
        #[trigger] crate::ratio::fraction_units(
            harmonic_num(h, n, subharmonics, 0) as nat,
            harmonic_den(h, n, subharmonics, 0) as nat,
            u,
        ) && u <= 0
    ||| exists|k: int, u1: int, u2: int|
        1 <= k < n && #[trigger] crate::ratio::fraction_units(
            harmonic_num(h, n, subharmonics, k - 1) as nat,
            harmonic_den(h, n, subharmonics, k - 1) as nat,
            u1,
        ) && #[trigger] crate::ratio::fraction_units(
            harmonic_num(h, n, subharmonics, k) as nat,
            harmonic_den(h, n, subharmonics, k) as nat,
            u2,
        ) && u2 <= u1
}

/// Builds a harmonic-series scale with `number_of_notes` notes above the
/// lowest harmonic: the intervals `(h+1)/h` up to `(h+n)/h`, the implicit
/// unison `h/h` being degree zero as in every scale.  For the subharmonic
/// variant the reciprocal series is renormalized to ascend from the root:
/// `(h+n)/(h+n-1)` up to `(h+n)/h`.  In both variants the last entry,
/// `(h+n)/h`, is the period.  Rejection happens exactly under
/// [`harmonics_rejected`]: in particular, that the bracketed logarithms of
/// consecutive harmonics ascend is validated, not assumed.
pub fn create_harmonics_scale(
    lowest_harmonic: u32,
    number_of_notes: u32,
    subharmonics: bool,
) -> (r: Result<Scale, ScaleError>)
    ensures
        r is Ok ==> ({
            let sc = r->Ok_0;
            let h = lowest_harmonic as int;
            let n = number_of_notes as int;
            &&& 1 <= h
            &&& 1 <= n <= 65535
            &&& sc.wf()
            &&& sc.spec_entries().len() == n
            &&& (forall|k: int|
                0 <= k < n ==> crate::ratio::fraction_units(
                    harmonic_num(h, n, subharmonics, k) as nat,
                    harmonic_den(h, n, subharmonics, k) as nat,
                    #[trigger] sc.spec_entries()[k],
                ))
        }),
        r is Err ==> harmonics_rejected(
            lowest_harmonic as int,
            number_of_notes as int,
            subharmonics,
        ),
{
    if lowest_harmonic == 0 || number_of_notes == 0 || number_of_notes > 65535 {
        return Err(ScaleError::OutOfRange);
    }
    let h = lowest_harmonic as u64;
    let n = number_of_notes as u64;
    let mut entries: Vec<i64> = Vec::new();
    let mut prev: i64 = 0;
    let mut k: u64 = 0;
    while k < n
        invariant
            k <= n,
            1 <= h <= 0x1_0000_0000,
            1 <= n <= 65535,
            h == lowest_harmonic as int,
            n == number_of_notes as int,
            entries@.len() == k,
            forall|j: int|
                0 <= j < k ==> crate::ratio::fraction_units(
                    harmonic_num(h as int, n as int, subharmonics, j) as nat,
                    harmonic_den(h as int, n as int, subharmonics, j) as nat,
                    (#[trigger] entries@[j]) as int,
                ),
            forall|j: int| 0 <= j < k ==> 0 < (#[trigger] entries@[j]) <= 20132659200,
            forall|j: int| 0 < j < k ==> entries@[j - 1] < #[trigger] entries@[j],
            k > 0 ==> prev == entries@[k - 1] && 0 < prev,
            k == 0 ==> prev == 0,
        decreases n - k,
    {
        let num: u64 = if subharmonics {
            h + n
        } else {
            h + k + 1
        };
        let den: u64 = if subharmonics {
            h + n - 1 - k
        } else {
            h
        };
        proof {
            assert(num as int == harmonic_num(h as int, n as int, subharmonics, k as int));
            assert(den as int == harmonic_den(h as int, n as int, subharmonics, k as int));
        }
        let u = match crate::ratio::rational_to_units(num as u128, den as u128) {
            Ok(u) => u,
            Err(_) => {
                proof {
                    assert(harmonics_rejected(h as int, n as int, subharmonics));
                }
                return Err(ScaleError::OutOfRange);
            },
        };
        if u <= prev {
            proof {
                if k == 0 {
                    assert(harmonics_rejected(h as int, n as int, subharmonics));
                } else {
                    assert(crate::ratio::fraction_units(
                        harmonic_num(h as int, n as int, subharmonics, k - 1) as nat,
                        harmonic_den(h as int, n as int, subharmonics, k - 1) as nat,
                        prev as int,
                    ));
                    assert(harmonics_rejected(h as int, n as int, subharmonics));
                }
            }
            return Err(ScaleError::NonMonotonic);
        }
        entries.push(u);
        prev = u;
        k = k + 1;
    }
    let mut name = String::new();
    if subharmonics {
        name.append("subharmonics");
    } else {
        name.append("harmonics");
    }
    let sc = Scale { name, entries };
    proof {
        assert forall|a: int, b: int|
            0 <= a < b < sc.spec_entries().len() implies sc.spec_entries()[a]
            < sc.spec_entries()[b] by {
            assert(forall|j: int|
                0 < j < sc.spec_entries().len() ==> sc.spec_entries()[j - 1]
                    < #[trigger] sc.spec_entries()[j]);
            lemma_adjacent_sorted(sc.spec_entries(), a, b);
        }
    }
    Ok(sc)
}

} // verus!
