//! The rational approximator: the simplest fraction close to an interval,
//! octaves factored out.

use crate::math::{floor_div, floor_mod, spec_floor_div};
use crate::ratio::{fraction_units, rational_in_range, rational_to_units, Ratio};
use vstd::arithmetic::power::{lemma1_pow, pow};
use vstd::arithmetic::power2::{lemma2_to64, pow2};
use vstd::prelude::*;

verus! {

/// One octave in fixed-point interval units.
pub const OCTAVE_UNITS: i64 = 1258291200;

/// The simplest fraction approximating an interval, once octave doublings
/// have been factored out: `numer/denom * 2^num_octaves` approximates the
/// queried interval within `deviation`.
#[derive(Clone, Copy, Debug, PartialEq, Eq, Structural)]
pub struct NearestFraction {
    /// Numerator, coprime to the denominator and at most the limit.
    pub numer: u64,
    /// Denominator, coprime to the numerator and at most the limit.
    pub denom: u64,
    /// The signed interval by which the query exceeds the fraction.
    pub deviation: Ratio,
    /// The power of two factored out of the query.
    pub num_octaves: i32,
}

/// A Bezout certificate that `p` and `q` are coprime.
pub open spec fn coprime_witness(x: int, y: int, p: int, q: int) -> bool {
    x * p + y * q == 1
}

/// The unison is the fixed point of the logarithm bracket: size zero.
proof fn lemma_unison_units()
    ensures
        fraction_units(1, 1, 0),
{
    lemma2_to64();
    lemma1_pow(pow2(24));
    lemma1_pow(2);
    assert(crate::math::log2_bracket(1, 1, 0)) by {
        assert(pow(1int, pow2(24)) == 1) by {
            lemma1_pow(pow2(24));
        }
        assert(pow2(0) == 1 && pow2(2) == 4);
    }
}

/// The octave is read exactly: the bracketed logarithm of two is one.
proof fn lemma_octave_units()
    ensures
        fraction_units(2, 1, OCTAVE_UNITS as int),
{
    lemma2_to64();
    lemma1_pow(pow2(24));
    vstd::arithmetic::power2::lemma_pow2(pow2(24));
    assert(crate::math::log2_bracket(2, 1, pow2(24))) by {
        assert(pow(1int, pow2(24)) == 1) by {
            lemma1_pow(pow2(24));
        }
        assert(pow(2int, pow2(24)) == pow2(pow2(24))) by {
            vstd::arithmetic::power2::lemma_pow2(pow2(24));
        }
        vstd::arithmetic::power2::lemma_pow2_strictly_increases(pow2(24), pow2(24) + 2);
    }
    assert(75 * pow2(24) == OCTAVE_UNITS) by {
        vstd::arithmetic::power2::lemma2_to64_rest();
    }
}

/// The mediant property of a unimodular pair: every fraction strictly
/// between `a/b` and `c/d` has a numerator of at least `a + c` and a
/// denominator of at least `b + d`.
proof fn lemma_mediant_bound(a: int, b: int, c: int, d: int, p: int, q: int)
    requires
        1 <= a,
        1 <= b,
        1 <= c,
        1 <= d,
        1 <= p,
        1 <= q,
        c * b - a * d == 1,
        a * q < p * b,
        p * d < c * q,
    ensures
        p >= a + c,
        q >= b + d,
{
    let x = p * b - a * q;
    let y = c * q - p * d;
    assert(d * x + b * y == q) by (nonlinear_arith)
        requires
            x == p * b - a * q,
            y == c * q - p * d,
            c * b - a * d == 1,
    ;
    assert(a * y + c * x == p) by (nonlinear_arith)
        requires
            x == p * b - a * q,
            y == c * q - p * d,
            c * b - a * d == 1,
    ;
    assert(q >= b + d) by (nonlinear_arith)
        requires
            d * x + b * y == q,
            x >= 1,
            y >= 1,
            b >= 1,
            d >= 1,
    ;
    assert(p >= a + c) by (nonlinear_arith)
        requires
            a * y + c * x == p,
            x >= 1,
            y >= 1,
            a >= 1,
            c >= 1,
    ;
}

/// Value order carries over to bracketed logarithms within one bracket
/// step: if `p1/q1 <= p2/q2` then their unit sizes differ by at most `75`
/// in the wrong direction.
proof fn lemma_units_order(p1: nat, q1: nat, u1: int, p2: nat, q2: nat, u2: int)
    requires
        1 <= q1 <= p1,
        1 <= q2 <= p2,
        p1 * q2 <= p2 * q1,
        fraction_units(p1, q1, u1),
        fraction_units(p2, q2, u2),
    ensures
        u1 <= u2 + 75,
{
    let n24 = pow2(24);
    let k1 = choose|k: nat| crate::math::log2_bracket(p1, q1, k) && u1 == 75 * k;
    let k2 = choose|k: nat| crate::math::log2_bracket(p2, q2, k) && u2 == 75 * k;
    assert(crate::math::log2_bracket(p1, q1, k1));
    assert(crate::math::log2_bracket(p2, q2, k2));
    lemma_pow_base_le((p1 * q2) as int, (p2 * q1) as int, n24);
    vstd::arithmetic::power::lemma_pow_distributes(p1 as int, q2 as int, n24);
    vstd::arithmetic::power::lemma_pow_distributes(p2 as int, q1 as int, n24);
    vstd::arithmetic::power::lemma_pow_positive(q1 as int, n24);
    vstd::arithmetic::power::lemma_pow_positive(q2 as int, n24);
    vstd::arithmetic::power::lemma_pow_positive(p1 as int, n24);
    vstd::arithmetic::power2::lemma_pow2_pos(k1);
    let pq1 = pow(q1 as int, n24);
    let pq2 = pow(q2 as int, n24);
    let pp1 = pow(p1 as int, n24);
    let pp2 = pow(p2 as int, n24);
    assert((pow2(k1) as int) * (pq1 * pq2) <= pp1 * pq2) by (nonlinear_arith)
        requires
            (pow2(k1) as int) * pq1 <= pp1,
            pq2 > 0,
    ;
    assert(pp1 * pq2 <= pp2 * pq1) by {
        assert(pow(((p1 * q2) as int), n24) == pp1 * pq2);
        assert(pow(((p2 * q1) as int), n24) == pp2 * pq1);
    }
    assert(pp2 * pq1 < ((pow2((k2 + 2) as nat)) as int) * (pq1 * pq2)) by (nonlinear_arith)
        requires
            pp2 < (pow2((k2 + 2) as nat) as int) * pq2,
            pq1 > 0,
    ;
    assert(pq1 * pq2 > 0) by (nonlinear_arith)
        requires
            pq1 > 0,
            pq2 > 0,
    ;
    assert(pow2(k1) < pow2((k2 + 2) as nat)) by (nonlinear_arith)
        requires
            (pow2(k1) as int) * (pq1 * pq2) < (pow2((k2 + 2) as nat) as int) * (pq1 * pq2),
            pq1 * pq2 > 0,
    ;
    if k1 >= k2 + 2 {
        if k1 > k2 + 2 {
            vstd::arithmetic::power2::lemma_pow2_strictly_increases((k2 + 2) as nat, k1);
        }
        assert(false);
    }
    assert(u1 <= u2 + 75) by (nonlinear_arith)
        requires
            u1 == 75 * k1,
            u2 == 75 * k2,
            k1 <= k2 + 1,
    ;
}

/// Finds the fraction with numerator and denominator at most `limit`
/// (octave doublings ignored) that most closely approximates `ratio`,
/// walking the mediants between the unison and the octave and keeping the
/// closer bracketing candidate; on a tie the lower fraction wins.
#[verifier::rlimit(80)]
pub fn nearest_fraction(ratio: Ratio, limit: u16) -> (r: NearestFraction)
    requires
        1 <= limit,
        -0x1800_0000_0000_0000 <= ratio@ <= 0x1800_0000_0000_0000,
    ensures
        1 <= r.numer <= limit,
        1 <= r.denom <= limit,
        // Coprimality, witnessed in Bezout form.
        exists|x: int, y: int| coprime_witness(x, y, r.numer as int, r.denom as int),
        // What the deviation means: the query equals the returned octaves
        // plus the fraction's interval plus the deviation.
        exists|c: int|
            fraction_units(r.numer as nat, r.denom as nat, c) && r.deviation@ == ratio@
                - r.num_octaves * (OCTAVE_UNITS as int) - c,
        r.num_octaves == spec_floor_div(ratio@, OCTAVE_UNITS as int) || r.num_octaves
            == spec_floor_div(ratio@, OCTAVE_UNITS as int) + 1,
        -21000000000 <= r.deviation@ < OCTAVE_UNITS,
        // Optimality: no fraction within the limit (octaves ignored, so
        // candidates lie between unison and octave) approximates the query
        // more closely, up to the logarithm bracket's slack of 75 units,
        // about seven hundredths of a cent.
        forall|a2: int, b2: int, u2: int|
            1 <= b2 && b2 <= a2 && a2 <= 2 * b2 && a2 <= limit && b2 <= limit
                && #[trigger] fraction_units(a2 as nat, b2 as nat, u2) ==> vstd::math::abs(
                r.deviation@,
            ) <= vstd::math::abs(
                ratio@ - spec_floor_div(ratio@, OCTAVE_UNITS as int) * (OCTAVE_UNITS as int)
                    - u2,
            ) + 75,
{
    let o = floor_div(ratio.as_fixed(), OCTAVE_UNITS);
    let rem = floor_mod(ratio.as_fixed(), OCTAVE_UNITS);
    proof {
        vstd::arithmetic::div_mod::lemma_fundamental_div_mod(ratio@, OCTAVE_UNITS as int);
        assert(-1500000000 <= o <= 1500000000) by (nonlinear_arith)
            requires
                (1258291200int) * (o as int) + (rem as int) == ratio@,
                0 <= rem < 1258291200,
                -0x1800_0000_0000_0000 <= ratio@ <= 0x1800_0000_0000_0000,
        ;
        lemma_unison_units();
        lemma_octave_units();
    }

    // The walk state: the left candidate a/b (at or below the remainder)
    // and the right candidate c/d (above it); the initial right bound is
    // the exact octave 2/1.
    let mut a: u64 = 1;
    let mut b: u64 = 1;
    let mut ca: i64 = 0;
    let mut c: u64 = 2;
    let mut d: u64 = 1;
    let mut cc: i64 = OCTAVE_UNITS;
    while a + c <= limit as u64 && b + d <= limit as u64
        invariant
            1 <= limit,
            0 <= rem < OCTAVE_UNITS,
            1 <= b <= a <= 2 * b,
            1 <= d <= c <= 2 * d,
            a <= limit || (a == 1 && b == 1),
            b <= limit,
            c <= limit || (c == 2 && d == 1),
            d <= limit,
            fraction_units(a as nat, b as nat, ca as int),
            fraction_units(c as nat, d as nat, cc as int),
            c == 2 && d == 1 ==> cc == OCTAVE_UNITS,
            (c as int) * (b as int) - (a as int) * (d as int) == 1,
            0 <= ca <= rem < cc <= OCTAVE_UNITS,
        decreases 2 * (limit as int) - (b as int) - (d as int),
    {
        let mn = a + c;
        let md = b + d;
        proof {
            assert(mn <= 2 * md) by (nonlinear_arith)
                requires
                    a <= 2 * b,
                    c <= 2 * d,
                    mn == a + c,
                    md == b + d,
            ;
            assert(rational_in_range(mn as nat, md as nat)) by {
                assert((mn as int) < (md as int) * 65536) by (nonlinear_arith)
                    requires
                        mn as int <= 2 * (md as int),
                        1 <= md,
                ;
                assert((md as int) < (mn as int) * 65536) by (nonlinear_arith)
                    requires
                        md as int <= mn as int,
                        1 <= mn,
                ;
            }
        }
        let cm = match rational_to_units(mn as u128, md as u128) {
            Ok(u) => u,
            Err(_) => {
                proof {
                    assert(false);
                }
                0
            },
        };
        // A mediant of intervals between unison and octave stays between
        // them: its bracketed logarithm is nonnegative and below 2^24.
        proof {
            lemma_mediant_units_bounds(mn as nat, md as nat, cm as int);
        }
        if cm <= rem {
            proof {
                assert((c as int) * ((b + d) as int) - ((a + c) as int) * (d as int) == 1)
                    by (nonlinear_arith)
                    requires
                        (c as int) * (b as int) - (a as int) * (d as int) == 1,
                ;
            }
            a = mn;
            b = md;
            ca = cm;
        } else {
            proof {
                assert(((a + c) as int) * (b as int) - (a as int) * ((b + d) as int) == 1)
                    by (nonlinear_arith)
                    requires
                        (c as int) * (b as int) - (a as int) * (d as int) == 1,
                ;
            }
            c = mn;
            d = md;
            cc = cm;
        }
    }
    let dev_left = rem - ca;
    let dev_right = cc - rem;
    let ghost best: int = if dev_left <= dev_right {
        dev_left as int
    } else {
        dev_right as int
    };
    proof {
        // At exit, the mediant property pins every in-limit fraction at or
        // outside the two bounds, so the closer bound is globally closest
        // up to one bracket step.
        assert(rem as int == ratio@ - (o as int) * (OCTAVE_UNITS as int));
        assert forall|a2: int, b2: int, u2: int|
            1 <= b2 && b2 <= a2 && a2 <= 2 * b2 && a2 <= limit && b2 <= limit
                && #[trigger] fraction_units(a2 as nat, b2 as nat, u2) implies best
            <= vstd::math::abs(rem as int - u2) + 75 by {
            if a2 * (b as int) <= (a as int) * b2 {
                // At or below the left bound: its units cannot exceed the
                // left units by more than one bracket step.
                lemma_units_order(a2 as nat, b2 as nat, u2, a as nat, b as nat, ca as int);
            } else if (c as int) * b2 <= a2 * (d as int) {
                // At or above the right bound.
                lemma_units_order(c as nat, d as nat, cc as int, a2 as nat, b2 as nat, u2);
            } else {
                // Strictly between the bounds: impossible within the limit.
                lemma_mediant_bound(a as int, b as int, c as int, d as int, a2, b2);
                assert(false);
            }
        }
    }
    if dev_left <= dev_right {
        proof {
            assert((-(d as int)) * (a as int) + (c as int) * (b as int) == 1)
                by (nonlinear_arith)
                requires
                    (c as int) * (b as int) - (a as int) * (d as int) == 1,
            ;
            assert(coprime_witness(-(d as int), c as int, a as int, b as int));
        }
        let result = NearestFraction {
            numer: a,
            denom: b,
            deviation: Ratio::from_fixed(dev_left),
            num_octaves: o as i32,
        };
        proof {
            assert(fraction_units(result.numer as nat, result.denom as nat, ca as int)
                && result.deviation@ == ratio@ - result.num_octaves * (OCTAVE_UNITS as int)
                - ca);
            assert(vstd::math::abs(result.deviation@) == best);
        }
        result
    } else if c == 2 && d == 1 {
        // The nearest candidate is the octave itself: fold it into the
        // octave count and report the unison fraction.
        proof {
            lemma_unison_units();
            assert(coprime_witness(1, 0, 1, 1)) by (nonlinear_arith);
        }
        let result = NearestFraction {
            numer: 1,
            denom: 1,
            deviation: Ratio::from_fixed(rem - OCTAVE_UNITS),
            num_octaves: (o + 1) as i32,
        };
        proof {
            lemma_unison_units();
            assert(((o + 1) as int) * (OCTAVE_UNITS as int) == (o as int) * (
            OCTAVE_UNITS as int) + OCTAVE_UNITS) by (nonlinear_arith);
            assert(fraction_units(result.numer as nat, result.denom as nat, 0int)
                && result.deviation@ == ratio@ - result.num_octaves * (OCTAVE_UNITS as int)
                - 0);
            assert(vstd::math::abs(result.deviation@) == best);
        }
        result
    } else {
        proof {
            assert((b as int) * (c as int) + (-(a as int)) * (d as int) == 1)
                by (nonlinear_arith)
                requires
                    (c as int) * (b as int) - (a as int) * (d as int) == 1,
            ;
            assert(coprime_witness(b as int, -(a as int), c as int, d as int));
        }
        let result = NearestFraction {
            numer: c,
            denom: d,
            deviation: Ratio::from_fixed(rem - cc),
            num_octaves: o as i32,
        };
        proof {
            assert(fraction_units(result.numer as nat, result.denom as nat, cc as int)
                && result.deviation@ == ratio@ - result.num_octaves * (OCTAVE_UNITS as int)
                - cc);
            assert(vstd::math::abs(result.deviation@) == best);
        }
        result
    }
}

/// Power is monotone in the base.
proof fn lemma_pow_base_le(a: int, b: int, e: nat)
    requires
        0 <= a <= b,
    ensures
        pow(a, e) <= pow(b, e),
    decreases e,
{
    reveal(pow);
    if e > 0 {
        lemma_pow_base_le(a, b, (e - 1) as nat);
        assert(pow(a, (e - 1) as nat) >= 0) by {
            reveal(pow);
            if a == 0 {
                if e != 1 {
                    vstd::arithmetic::power::lemma0_pow((e - 1) as nat);
                }
            } else {
                vstd::arithmetic::power::lemma_pow_positive(a, (e - 1) as nat);
            }
        }
        assert(pow(a, e) == a * pow(a, (e - 1) as nat));
        assert(pow(b, e) == b * pow(b, (e - 1) as nat));
        assert(a * pow(a, (e - 1) as nat) <= b * pow(b, (e - 1) as nat)) by (nonlinear_arith)
            requires
                0 <= a <= b,
                0 <= pow(a, (e - 1) as nat) <= pow(b, (e - 1) as nat),
        ;
    }
}

/// A fraction between the unison and the octave has a bracketed logarithm
/// between zero and one octave's worth of units.
proof fn lemma_mediant_units_bounds(p: nat, q: nat, u: int)
    requires
        q <= p <= 2 * q,
        1 <= q,
        fraction_units(p, q, u),
    ensures
        0 <= u <= OCTAVE_UNITS,
{
    let n24 = pow2(24);
    let k = choose|k: nat|
        crate::math::log2_bracket(p, q, k) && u == 75 * k;
    assert(crate::math::log2_bracket(p, q, k));
    assert(u >= 0) by (nonlinear_arith)
        requires
            u == 75 * k,
            k >= 0,
    ;
    // Upper bound: 2^k * q^N <= p^N <= (2q)^N = 2^N * q^N, hence k <= 2^24.
    lemma_pow_base_le(p as int, 2 * q as int, n24);
    vstd::arithmetic::power::lemma_pow_distributes(2, q as int, n24);
    vstd::arithmetic::power2::lemma_pow2(n24);
    vstd::arithmetic::power::lemma_pow_positive(q as int, n24);
    assert((pow2(k) as int) * pow(q as int, n24) <= (pow2(n24) as int) * pow(q as int, n24));
    assert(pow2(k) <= pow2(n24)) by (nonlinear_arith)
        requires
            (pow2(k) as int) * pow(q as int, n24) <= (pow2(n24) as int) * pow(q as int, n24),
            pow(q as int, n24) > 0,
    ;
    if k > n24 {
        vstd::arithmetic::power2::lemma_pow2_strictly_increases(n24, k);
        assert(false);
    }
    lemma2_to64();
    assert(u == 75 * k && k <= 0x1000000 ==> u <= 1258291200) by (nonlinear_arith);
    assert(k <= 0x1000000) by {
        vstd::arithmetic::power2::lemma2_to64_rest();
    }
}

} // verus!