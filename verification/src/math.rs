//! Exact integer arithmetic helpers: Euclidean division and a fixed-point
//! binary logarithm with a proved two-sided bracket.

use vstd::arithmetic::div_mod::{lemma_fundamental_div_mod, lemma_fundamental_div_mod_converse};
use vstd::arithmetic::power::{
    lemma_pow0, lemma_pow1, lemma_pow_adds, lemma_pow_increases, lemma_pow_positive,
};
use vstd::arithmetic::power2::{
    lemma2_to64, lemma_pow2, lemma_pow2_adds, lemma_pow2_pos, lemma_pow2_unfold, pow2,
};
use vstd::arithmetic::power::pow;
use vstd::prelude::*;

verus! {

/// Euclidean (floor) division: rounds towards negative infinity, so the
/// remainder is always in `[0, d)`.
pub open spec fn spec_floor_div(n: int, d: int) -> int
    recommends
        d > 0,
{
    n / d
}

/// Remainder of Euclidean division, in `[0, d)` for `d > 0`.
pub open spec fn spec_floor_mod(n: int, d: int) -> int
    recommends
        d > 0,
{
    n % d
}

/// Floor division of `n` by a positive divisor `d`, matching `spec_floor_div`.
pub fn floor_div(n: i64, d: i64) -> (q: i64)
    requires
        d > 0,
        n > i64::MIN,
    ensures
        q == spec_floor_div(n as int, d as int),
{
    if n >= 0 {
        let q = (n as u64) / (d as u64);
        proof {
            lemma_fundamental_div_mod(n as int, d as int);
            lemma_fundamental_div_mod(n as u64 as int, d as u64 as int);
        }
        q as i64
    } else {
        let m = (-n) as u64;
        let qq = m / (d as u64);
        let rr = m % (d as u64);
        proof {
            lemma_fundamental_div_mod(m as int, d as int);
        }
        if rr == 0 {
            proof {
                assert(n as int == (-(qq as int)) * (d as int) + 0) by (nonlinear_arith)
                    requires
                        m as int == (d as int) * (qq as int) + (rr as int),
                        rr == 0,
                        n as int == -(m as int),
                ;
                lemma_fundamental_div_mod_converse(n as int, d as int, -(qq as int), 0);
            }
            -(qq as i64)
        } else {
            proof {
                assert(n as int == (-(qq as int) - 1) * (d as int) + ((d - rr) as int))
                    by (nonlinear_arith)
                    requires
                        m as int == (d as int) * (qq as int) + (rr as int),
                        n as int == -(m as int),
                ;
                lemma_fundamental_div_mod_converse(
                    n as int,
                    d as int,
                    -(qq as int) - 1,
                    d - rr,
                );
            }
            -(qq as i64) - 1
        }
    }
}

/// Remainder of `n` modulo a positive divisor `d`, matching `spec_floor_mod`.
pub fn floor_mod(n: i64, d: i64) -> (r: i64)
    requires
        d > 0,
        n > i64::MIN,
    ensures
        r == spec_floor_mod(n as int, d as int),
        0 <= r < d,
{
    if n >= 0 {
        let r = (n as u64) % (d as u64);
        proof {
            lemma_fundamental_div_mod(n as int, d as int);
            lemma_fundamental_div_mod(n as u64 as int, d as u64 as int);
        }
        r as i64
    } else {
        let m = (-n) as u64;
        let qq = m / (d as u64);
        let rr = m % (d as u64);
        proof {
            lemma_fundamental_div_mod(m as int, d as int);
        }
        if rr == 0 {
            proof {
                assert(n as int == (-(qq as int)) * (d as int) + 0) by (nonlinear_arith)
                    requires
                        m as int == (d as int) * (qq as int) + (rr as int),
                        rr == 0,
                        n as int == -(m as int),
                ;
                lemma_fundamental_div_mod_converse(n as int, d as int, -(qq as int), 0);
            }
            0
        } else {
            proof {
                assert(n as int == (-(qq as int) - 1) * (d as int) + ((d - rr) as int))
                    by (nonlinear_arith)
                    requires
                        m as int == (d as int) * (qq as int) + (rr as int),
                        n as int == -(m as int),
                ;
                lemma_fundamental_div_mod_converse(
                    n as int,
                    d as int,
                    -(qq as int) - 1,
                    d - rr,
                );
            }
            d - (rr as i64)
        }
    }
}

/// Number of fractional bits produced by [`log2_fixed`].
pub const LOG2_FRAC_BITS: u64 = 24;

const TWO63: u128 = 0x8000_0000_0000_0000;

const TWO64: u128 = 0x1_0000_0000_0000_0000;

/// `pow(p, 2^i)`: the numerator of the exact running value tracked by the
/// binary-logarithm iteration after `i` squarings.
pub open spec fn log2_num(p: nat, i: nat) -> int {
    pow(p as int, pow2(i))
}

/// `pow(q, 2^i) * 2^(e * 2^i + c)`: the denominator of the exact running
/// value after `i` squarings, once `e` integer bits and the fraction bits
/// `c` have been taken out.
pub open spec fn log2_den(q: nat, e: nat, i: nat, c: nat) -> int {
    pow(q as int, pow2(i)) * pow2((e * pow2(i) + c) as nat)
}

/// The contract of [`log2_fixed`]: `r` is a 24-fractional-bit fixed-point
/// approximation of `log2(p / q)`, pinned from both sides by exact integer
/// inequalities.  Written out: `r <= 2^24 * log2(p / q) < r + 2`.
pub open spec fn log2_bracket(p: nat, q: nat, r: nat) -> bool {
    (pow2(r) as int) * pow(q as int, pow2(24)) <= pow(p as int, pow2(24)) < (pow2(
        (r + 2) as nat,
    ) as int) * pow(q as int, pow2(24))
}

/// From `a <= b` (both nonnegative), `a^2 <= b^2`.
proof fn lemma_square_le(a: int, b: int)
    requires
        0 <= a <= b,
    ensures
        a * a <= b * b,
{
    assert(a * a <= b * b) by (nonlinear_arith)
        requires
            0 <= a <= b,
    ;
}

/// Cancel a positive common factor in `a * k <= b * k`.
proof fn lemma_cancel_le(a: int, b: int, k: int)
    requires
        k > 0,
        a * k <= b * k,
    ensures
        a <= b,
{
    assert(a <= b) by (nonlinear_arith)
        requires
            k > 0,
            a * k <= b * k,
    ;
}

/// Cancel a positive common factor in `a * k < b * k`.
proof fn lemma_cancel_lt(a: int, b: int, k: int)
    requires
        k > 0,
        a * k < b * k,
    ensures
        a < b,
{
    assert(a < b) by (nonlinear_arith)
        requires
            k > 0,
            a * k < b * k,
    ;
}

/// Lower bound propagation through one squaring-and-truncation step:
/// from `x * m <= pp * t` and `x2 * t <= x * x`, conclude
/// `x2 * (m * m) <= (pp * pp) * t`.
proof fn lemma_log2_step_lower(x: int, m: int, pp: int, t: int, x2: int)
    requires
        t > 0,
        0 <= x,
        0 <= m,
        0 <= pp,
        0 <= x2,
        x * m <= pp * t,
        x2 * t <= x * x,
    ensures
        x2 * (m * m) <= (pp * pp) * t,
{
    lemma_square_le(x * m, pp * t);
    assert((x2 * (m * m)) * t <= ((pp * pp) * t) * t) by (nonlinear_arith)
        requires
            t > 0,
            0 <= x,
            0 <= m,
            x2 * t <= x * x,
            (x * m) * (x * m) <= (pp * t) * (pp * t),
    ;
    lemma_cancel_le(x2 * (m * m), (pp * pp) * t, t);
}

/// Upper bound propagation through one squaring-and-truncation step:
/// from `pp * t < (x + d) * m`, `x * x < (x2 + 1) * t` and an error term
/// `er` with `er * t <= 2 * x * d + d * d`, conclude that the new error
/// `d2 = er + 2` keeps `(pp * pp) * t < (x2 + d2) * (m * m)`.
proof fn lemma_log2_step_upper(x: int, d: int, m: int, pp: int, t: int, x2: int, er: int, d2: int)
    requires
        t > 0,
        0 <= x,
        0 <= d,
        0 < m,
        0 <= pp,
        0 <= x2,
        0 <= er,
        pp * t < (x + d) * m,
        x * x < (x2 + 1) * t,
        2 * x * d + d * d < (er + 1) * t,
        d2 == er + 2,
    ensures
        (pp * pp) * t < (x2 + d2) * (m * m),
{
    let s = x + d;
    assert(0 <= pp * t) by (nonlinear_arith)
        requires
            0 <= pp,
            t > 0,
    ;
    assert((pp * t) * (pp * t) < (s * m) * (s * m)) by (nonlinear_arith)
        requires
            0 <= pp * t,
            pp * t < s * m,
    ;
    assert(s * s == x * x + 2 * x * d + d * d) by (nonlinear_arith)
        requires
            s == x + d,
    ;
    assert(s * s < (x2 + d2) * t) by (nonlinear_arith)
        requires
            x * x < (x2 + 1) * t,
            2 * x * d + d * d < (er + 1) * t,
            d2 == er + 2,
            s * s == x * x + 2 * x * d + d * d,
    ;
    assert((s * m) * (s * m) == (s * s) * (m * m)) by (nonlinear_arith)
        requires
            s == x + d,
    ;
    assert(0 < m * m) by (nonlinear_arith)
        requires
            0 < m,
    ;
    assert((s * s) * (m * m) < ((x2 + d2) * t) * (m * m)) by (nonlinear_arith)
        requires
            s * s < (x2 + d2) * t,
            0 < m * m,
    ;
    assert(((x2 + d2) * t) * (m * m) == (((x2 + d2) * (m * m))) * t) by (nonlinear_arith);
    assert((pp * t) * (pp * t) == ((pp * pp) * t) * t) by (nonlinear_arith);
    lemma_cancel_lt((pp * pp) * t, (x2 + d2) * (m * m), t);
}

/// The truncated error counter grows by a factor of at most five per step.
proof fn lemma_log2_step_error(x: int, d: int, t: int, er: int)
    requires
        t > 0,
        2 <= d < t,
        0 <= x < 2 * t,
        0 <= er,
        er * t <= 2 * x * d + d * d,
    ensures
        er + 2 <= 5 * d,
{
    assert((d - 2) * (t - d) >= 0) by (nonlinear_arith)
        requires
            2 <= d < t,
    ;
    assert(er * t <= (5 * d - 2) * t) by (nonlinear_arith)
        requires
            t > 0,
            2 <= d,
            0 <= x < 2 * t,
            er * t <= 2 * x * d + d * d,
            (d - 2) * (t - d) >= 0,
    ;
    lemma_cancel_le(er, 5 * d - 2, t);
}

/// `pow2` is monotone.
pub proof fn lemma_pow2_le(e1: nat, e2: nat)
    requires
        e1 <= e2,
    ensures
        pow2(e1) <= pow2(e2),
{
    lemma_pow2(e1);
    lemma_pow2(e2);
    lemma_pow_increases(2, e1, e2);
}

/// Concrete value of `3 * 5^24`, an upper bound for the error counter of
/// [`log2_fixed`] after all of its iterations.
proof fn lemma_error_budget()
    ensures
        3 * pow(5, 23) == 35762786865234375,
        3 * pow(5, 24) == 178813934326171875,
{
    reveal_with_fuel(pow, 26);
    assert(pow(5, 23) == 11920928955078125 && pow(5, 24) == 59604644775390625);
}

/// A fixed-point binary logarithm: for `q <= p < 65536 * q` the result `r`
/// satisfies `r <= 2^24 * log2(p / q) < r + 2`, stated purely over integer
/// powers by [`log2_bracket`].  The computation is exact integer arithmetic:
/// a 64-bit fixed-point mantissa is repeatedly squared while a proved
/// counter bounds the accumulated truncation error.
pub fn log2_fixed(p: u64, q: u64) -> (r: u64)
    requires
        1 <= q <= p,
        (p as int) < (q as int) * 65536,
        p <= 0x1_0000_0000_0000,
    ensures
        log2_bracket(p as nat, q as nat, r as nat),
        r < 0x1000_0000,
{
    // Integer part: the largest e with q * 2^e <= p (so e <= 15).
    let mut e: u64 = 0;
    let mut qe: u64 = q;
    proof {
        lemma2_to64();
        assert(pow2(0) == 1);
        assert(qe == q * pow2(0));
    }
    while 2 * qe <= p
        invariant
            1 <= q <= p,
            (p as int) < (q as int) * 65536,
            p <= 0x1_0000_0000_0000,
            qe == (q as int) * (pow2(e as nat) as int),
            qe <= p,
            e <= 15,
        decreases p - qe,
    {
        proof {
            lemma_pow2_unfold((e + 1) as nat);
            assert(2 * (qe as int) == (q as int) * (pow2((e + 1) as nat) as int))
                by (nonlinear_arith)
                requires
                    qe == (q as int) * (pow2(e as nat) as int),
                    pow2((e + 1) as nat) == 2 * pow2(e as nat),
            ;
            // If e were already 15, q * 2^16 <= 2 * qe <= p contradicts p < 65536 * q.
            if e >= 15 {
                lemma2_to64();
                lemma_pow2_le(16, (e + 1) as nat);
                assert((q as int) * 65536 <= (q as int) * (pow2((e + 1) as nat) as int))
                    by (nonlinear_arith)
                    requires
                        q >= 1,
                        65536 <= pow2((e + 1) as nat),
                ;
                assert(false);
            }
            lemma_pow2_pos(e as nat);
            assert(qe >= 1) by (nonlinear_arith)
                requires
                    qe == (q as int) * (pow2(e as nat) as int),
                    q >= 1,
                    pow2(e as nat) >= 1,
            ;
        }
        qe = 2 * qe;
        e = e + 1;
    }
    proof {
        lemma_pow2_pos(e as nat);
        assert(qe >= 1) by (nonlinear_arith)
            requires
                qe == (q as int) * (pow2(e as nat) as int),
                q >= 1,
                pow2(e as nat) >= 1,
        ;
    }

    // Initial 64-bit fixed-point mantissa x = floor(p * 2^63 / (q * 2^e)),
    // a value in [2^63, 2^64).
    let x0: u128 = ((p as u128) * TWO63) / (qe as u128);
    proof {
        let n63 = (p as int) * (TWO63 as int);
        lemma_fundamental_div_mod(n63, qe as int);
        assert((x0 as int) * (qe as int) <= n63) by (nonlinear_arith)
            requires
                n63 == (qe as int) * (x0 as int) + (n63 % (qe as int)),
                n63 % (qe as int) >= 0,
        ;
        assert(n63 < ((x0 as int) + 3) * (qe as int)) by (nonlinear_arith)
            requires
                n63 == (qe as int) * (x0 as int) + (n63 % (qe as int)),
                n63 % (qe as int) < (qe as int),
                qe >= 1,
        ;
        // x0 < 2^64 because p < 2 * qe.
        assert((p as int) * (TWO63 as int) < (qe as int) * (TWO64 as int)) by (nonlinear_arith)
            requires
                (p as int) < 2 * (qe as int),
                TWO64 as int == 2 * (TWO63 as int),
                TWO63 > 0,
        ;
        assert(x0 < TWO64) by (nonlinear_arith)
            requires
                (x0 as int) * (qe as int) <= (p as int) * (TWO63 as int),
                (p as int) * (TWO63 as int) < (qe as int) * (TWO64 as int),
                qe >= 1,
        ;
    }

    let mut x: u128 = x0;
    let mut d: u128 = 3;
    let mut c: u64 = 0;
    let mut i: u64 = 0;
    proof {
        lemma_pow1(p as int);
        lemma_pow1(q as int);
        lemma_pow0(5);
        lemma2_to64();
        assert(pow2(0) == 1 && pow2(1) == 2);
        assert(log2_num(p as nat, 0) == p as int);
        assert(log2_den(q as nat, e as nat, 0, 0) == (q as int) * (pow2(e as nat) as int)) by {
            assert((e as nat) * pow2(0) + 0 == e as nat);
        }
    }
    while i < 24
        invariant
            1 <= q <= p,
            e <= 15,
            i <= 24,
            (c as int) < pow2(i as nat),
            x < TWO64,
            2 <= d,
            (d as int) <= 3 * pow(5, i as nat),
            (x as int) * log2_den(q as nat, e as nat, i as nat, c as nat) <= log2_num(
                p as nat,
                i as nat,
            ) * (TWO63 as int),
            log2_num(p as nat, i as nat) * (TWO63 as int) < ((x as int) + (d as int)) * log2_den(
                q as nat,
                e as nat,
                i as nat,
                c as nat,
            ),
            log2_den(q as nat, e as nat, i as nat, c as nat) <= log2_num(p as nat, i as nat),
        decreases 24 - i,
    {
        let ghost mm = log2_den(q as nat, e as nat, i as nat, c as nat);
        let ghost pp = log2_num(p as nat, i as nat);
        proof {
            // Bound d concretely so the error update cannot overflow.
            lemma_error_budget();
            lemma_pow_increases(5, i as nat, 23);
            assert(d <= 35762786865234375);
            assert(x * x < TWO64 * TWO64) by (nonlinear_arith)
                requires
                    0 <= x < TWO64,
            ;
            assert(2 * x * d + d * d < 0xffff_ffff_ffff_ffff_ffff_ffff_ffff_ffff)
                by (nonlinear_arith)
                requires
                    0 <= x < TWO64,
                    0 <= d <= 35762786865234375,
                    TWO64 == 0x1_0000_0000_0000_0000,
            ;
            // Positivity of the ghost quantities.
            lemma_pow_positive(q as int, pow2(i as nat));
            lemma_pow_positive(p as int, pow2(i as nat));
            lemma_pow2_pos((e as nat) * pow2(i as nat) + c as nat);
            assert(mm > 0) by (nonlinear_arith)
                requires
                    mm == pow(q as int, pow2(i as nat)) * (pow2(
                        (e as nat) * pow2(i as nat) + c as nat,
                    ) as int),
                    pow(q as int, pow2(i as nat)) > 0,
                    pow2((e as nat) * pow2(i as nat) + c as nat) > 0,
            ;
            assert(pp > 0);
        }
        let y: u128 = x * x;
        let x2: u128 = y / TWO63;
        let num: u128 = 2 * x * d + d * d;
        let er: u128 = num / TWO63;
        let d2: u128 = er + 2;
        proof {
            lemma_fundamental_div_mod(y as int, TWO63 as int);
            assert((x2 as int) * (TWO63 as int) <= y as int && (y as int) < ((x2 as int) + 1) * (
            TWO63 as int)) by (nonlinear_arith)
                requires
                    y as int == (TWO63 as int) * (x2 as int) + ((y as int) % (TWO63 as int)),
                    0 <= (y as int) % (TWO63 as int) < (TWO63 as int),
            ;
            lemma_fundamental_div_mod(num as int, TWO63 as int);
            assert((num as int) < ((er as int) + 1) * (TWO63 as int) && (er as int) * (
            TWO63 as int) <= num as int) by (nonlinear_arith)
                requires
                    num as int == (TWO63 as int) * (er as int) + ((num as int) % (TWO63 as int)),
                    0 <= (num as int) % (TWO63 as int) < (TWO63 as int),
            ;
            // x2 < 2^65.
            assert(x2 < 2 * TWO64) by (nonlinear_arith)
                requires
                    (x2 as int) * (TWO63 as int) <= (y as int),
                    y == x * x,
                    0 <= x < TWO64,
                    TWO64 == 2 * TWO63,
                    TWO63 > 0,
            ;
            // The error counter stays within its budget.
            lemma_log2_step_error(x as int, d as int, TWO63 as int, er as int);
            lemma_error_budget();
            assert((d2 as int) <= 3 * pow(5, (i + 1) as nat)) by {
                assert(pow(5, (i + 1) as nat) == 5 * pow(5, i as nat)) by {
                    lemma_pow_adds(5, 1, i as nat);
                    lemma_pow1(5);
                }
                assert(5 * (d as int) <= 5 * (3 * pow(5, i as nat))) by (nonlinear_arith)
                    requires
                        (d as int) <= 3 * pow(5, i as nat),
                ;
            }
            // Propagate the two-sided bracket through the squaring.
            lemma_log2_step_lower(x as int, mm, pp, TWO63 as int, x2 as int);
            lemma_log2_step_upper(
                x as int,
                d as int,
                mm,
                pp,
                TWO63 as int,
                x2 as int,
                er as int,
                d2 as int,
            );
            // Relate the squared ghost quantities to step i + 1.
            lemma_pow_adds(p as int, pow2(i as nat), pow2(i as nat));
            lemma_pow_adds(q as int, pow2(i as nat), pow2(i as nat));
            lemma_pow2_unfold((i + 1) as nat);
            assert(pow2((i + 1) as nat) == pow2(i as nat) + pow2(i as nat));
            assert(log2_num(p as nat, (i + 1) as nat) == pp * pp);
        }
        if x2 < TWO64 {
            // Fraction bit 0: the running value stays below 2.
            proof {
                let cn = 2 * (c as nat);
                let en = (e as nat) * pow2((i + 1) as nat) + cn;
                assert(en == 2 * ((e as nat) * pow2(i as nat) + (c as nat))) by (nonlinear_arith)
                    requires
                        pow2((i + 1) as nat) == 2 * pow2(i as nat),
                        en == (e as nat) * pow2((i + 1) as nat) + cn,
                        cn == 2 * (c as nat),
                ;
                lemma_pow2_adds(
                    (e as nat) * pow2(i as nat) + (c as nat),
                    (e as nat) * pow2(i as nat) + (c as nat),
                );
                assert(log2_den(q as nat, e as nat, (i + 1) as nat, cn) == mm * mm)
                    by (nonlinear_arith)
                    requires
                        log2_den(q as nat, e as nat, (i + 1) as nat, cn) == (pow(
                            q as int,
                            pow2(i as nat),
                        ) * pow(q as int, pow2(i as nat))) * (pow2(
                            (e as nat) * pow2(i as nat) + (c as nat),
                        ) as int * pow2((e as nat) * pow2(i as nat) + (c as nat)) as int),
                        mm == pow(q as int, pow2(i as nat)) * (pow2(
                            (e as nat) * pow2(i as nat) + (c as nat),
                        ) as int),
                ;
                // mm * mm <= pp * pp.
                lemma_square_le(mm, pp);
                // c stays within i + 1 bits, which also rules out overflow.
                lemma_pow2_unfold((i + 1) as nat);
                lemma_pow2_le(i as nat, 23);
                lemma2_to64();
            }
            x = x2;
            d = d2;
            c = 2 * c;
        } else {
            // Fraction bit 1: halve the running value.
            let xh: u128 = x2 / 2;
            proof {
                lemma_fundamental_div_mod(x2 as int, 2);
                let cn = 2 * (c as nat) + 1;
                let en = (e as nat) * pow2((i + 1) as nat) + cn;
                assert(en == 2 * ((e as nat) * pow2(i as nat) + (c as nat)) + 1)
                    by (nonlinear_arith)
                    requires
                        pow2((i + 1) as nat) == 2 * pow2(i as nat),
                        en == (e as nat) * pow2((i + 1) as nat) + cn,
                        cn == 2 * (c as nat) + 1,
                ;
                lemma_pow2_adds(
                    (e as nat) * pow2(i as nat) + (c as nat),
                    (e as nat) * pow2(i as nat) + (c as nat),
                );
                lemma_pow2_adds(2 * ((e as nat) * pow2(i as nat) + (c as nat)), 1);
                lemma2_to64();
                let ghost mn = log2_den(q as nat, e as nat, (i + 1) as nat, cn);
                assert(mn == 2 * (mm * mm)) by (nonlinear_arith)
                    requires
                        mn == (pow(q as int, pow2(i as nat)) * pow(q as int, pow2(i as nat))) * ((
                        pow2((e as nat) * pow2(i as nat) + (c as nat)) as int * pow2(
                            (e as nat) * pow2(i as nat) + (c as nat),
                        ) as int) * 2),
                        mm == pow(q as int, pow2(i as nat)) * (pow2(
                            (e as nat) * pow2(i as nat) + (c as nat),
                        ) as int),
                ;
                // Lower bound survives the halving.
                assert((xh as int) * mn <= (x2 as int) * (mm * mm)) by (nonlinear_arith)
                    requires
                        mn == 2 * (mm * mm),
                        2 * (xh as int) <= x2 as int,
                        mm * mm >= 0,
                ;
                // Upper bound survives the halving with the same error counter.
                assert((pp * pp) * (TWO63 as int) < ((xh as int) + (d2 as int)) * mn)
                    by (nonlinear_arith)
                    requires
                        (pp * pp) * (TWO63 as int) < ((x2 as int) + (d2 as int)) * (mm * mm),
                        mn == 2 * (mm * mm),
                        x2 as int <= 2 * (xh as int) + 1,
                        d2 >= 2,
                        mm * mm > 0,
                ;
                // The denominator still cannot exceed the numerator: the
                // halving happened precisely because the value was >= 2.
                assert(mn <= pp * pp) by (nonlinear_arith)
                    requires
                        (x2 as int) * (mm * mm) <= (pp * pp) * (TWO63 as int),
                        x2 as int >= TWO64 as int,
                        TWO64 as int == 2 * (TWO63 as int),
                        TWO63 > 0,
                        mn == 2 * (mm * mm),
                        mm * mm > 0,
                ;
                // xh < 2^64.
                assert(xh < TWO64) by (nonlinear_arith)
                    requires
                        2 * (xh as int) <= x2 as int,
                        (x2 as int) < 2 * (TWO64 as int),
                ;
                lemma_pow2_unfold((i + 1) as nat);
                lemma_pow2_le(i as nat, 23);
            }
            x = xh;
            d = d2;
            c = 2 * c + 1;
        }
        i = i + 1;
    }

    let r: u64 = e * 0x100_0000 + c;
    proof {
        // The final bracket, with slack 2: x + d < 2^65.
        lemma_error_budget();
        let mf = log2_den(q as nat, e as nat, 24, c as nat);
        let pf = log2_num(p as nat, 24);
        lemma_pow_positive(q as int, pow2(24));
        lemma_pow2_pos((e as nat) * pow2(24) + c as nat);
        assert(mf > 0) by (nonlinear_arith)
            requires
                mf == pow(q as int, pow2(24)) * (pow2((e as nat) * pow2(24) + c as nat) as int),
                pow(q as int, pow2(24)) > 0,
                pow2((e as nat) * pow2(24) + c as nat) > 0,
        ;
        assert(pf * (TWO63 as int) < (4 * mf) * (TWO63 as int)) by (nonlinear_arith)
            requires
                pf * (TWO63 as int) < ((x as int) + (d as int)) * mf,
                x < TWO64,
                (d as int) <= 178813934326171875,
                TWO64 as int == 2 * (TWO63 as int),
                TWO63 == 0x8000_0000_0000_0000,
                mf > 0,
        ;
        lemma_cancel_lt(pf, 4 * mf, TWO63 as int);
        // Rewrite both sides in the shape of the public bracket.
        lemma2_to64();
        assert((r as nat) == (e as nat) * pow2(24) + (c as nat));
        lemma_pow2_adds(r as nat, 2);
        assert((pow2(r as nat) as int) * pow(q as int, pow2(24)) <= pf) by (nonlinear_arith)
            requires
                mf == pow(q as int, pow2(24)) * (pow2(r as nat) as int),
                mf <= pf,
        ;
        assert(pf < (pow2((r + 2) as nat) as int) * pow(q as int, pow2(24))) by (nonlinear_arith)
            requires
                mf == pow(q as int, pow2(24)) * (pow2(r as nat) as int),
                pf < 4 * mf,
                pow2((r + 2) as nat) == pow2(r as nat) * 4,
        ;
    }
    r
}

} // verus!
