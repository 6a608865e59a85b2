//! Musical intervals: the [`Ratio`] type, its four textual syntaxes and its
//! canonical formatting.
//!
//! A `Ratio` is a frequency multiplier stored logarithmically: the `i64`
//! inside is `round-toward-zero(cents * 2^20)`.  Composing intervals is then
//! exact integer addition, and the only approximation in the whole crate is
//! the bracketed fixed-point logarithm of [`crate::math::log2_fixed`], used
//! once per parsed fraction, decimal or step base.

use crate::math::{log2_bracket, log2_fixed};
use crate::text::{
    all_digits, ascii_bytes, char_digits, char_digits_pad, digits_val, find_byte, find_byte_in,
    lemma_char_digits, lemma_char_digits_chars, lemma_char_digits_len, lemma_char_digits_pad,
    lemma_char_digits_pad_chars, lemma_digit_chars_ascii, lemma_digits_val_concat,
    lemma_find_byte_is, lemma_pow10_values, parse_decimal, pow10, push_digits_pad,
    push_digits_u64, spec_decimal,
};
use vstd::prelude::*;
use vstd::string::StrSliceExecFns;
use vstd::string::StringExecFns;

verus! {

/// Largest interval magnitude the crate works with: four million cents
/// (about 3333 octaves), in fixed-point units of `2^-20` cent.
pub const MAX_RATIO_UNITS: i64 = 4194304000000;

/// A musical interval: a positive frequency multiplier, stored as its
/// size in units of `2^-20` cent.  `0` is the unison.
#[derive(Clone, Copy, Debug, PartialEq, Eq, Structural)]
pub struct Ratio {
    units: i64,
}

impl View for Ratio {
    type V = int;

    closed spec fn view(&self) -> int {
        self.units as int
    }
}

/// Why a ratio expression was rejected.
#[derive(Clone, Copy, Debug, PartialEq, Eq, Structural)]
pub enum RatioErrorKind {
    /// The text holds a byte outside printable ASCII.
    NotAscii,
    /// A number or the overall expression is malformed.
    Malformed,
    /// The number is well-formed but outside the supported range.
    OutOfRange,
}

/// A rejected ratio expression: the kind of problem and the offending text.
#[derive(Clone, Debug, PartialEq, Eq)]
pub struct RatioError {
    pub kind: RatioErrorKind,
    pub offending: String,
}

impl RatioError {
    /// A human-readable description: a prefix naming the kind of problem,
    /// then the offending substring in quotes.
    pub fn message(&self) -> (s: String)
        ensures
            s@ == (match self.kind {
                RatioErrorKind::NotAscii => "ratio must be ASCII: '"@,
                RatioErrorKind::Malformed => "invalid ratio: '"@,
                RatioErrorKind::OutOfRange => "ratio out of range: '"@,
            }) + self.offending@ + "'"@,
    {
        let mut s = String::new();
        match self.kind {
            RatioErrorKind::NotAscii => s.append("ratio must be ASCII: '"),
            RatioErrorKind::Malformed => s.append("invalid ratio: '"),
            RatioErrorKind::OutOfRange => s.append("ratio out of range: '"),
        }
        s.append(self.offending.as_str());
        s.append("'");
        proof {
            assert(s@ =~= (match self.kind {
                RatioErrorKind::NotAscii => "ratio must be ASCII: '"@,
                RatioErrorKind::Malformed => "invalid ratio: '"@,
                RatioErrorKind::OutOfRange => "ratio out of range: '"@,
            }) + self.offending@ + "'"@);
        }
        s
    }
}

/// Whether the pair `(p, q)` is accepted by the logarithm kernel in both
/// directions: positive, at most `2^48`, within a factor of `65536` of
/// each other.
pub open spec fn rational_in_range(p: nat, q: nat) -> bool {
    &&& 1 <= p <= 0x1_0000_0000_0000
    &&& 1 <= q <= 0x1_0000_0000_0000
    &&& p < q * 65536
    &&& q < p * 65536
}

/// `r` is the fixed-point interval size of the frequency ratio `p / q`:
/// `75` units per fractional step of the bracketed binary logarithm.
pub open spec fn fraction_units(p: nat, q: nat, r: int) -> bool {
    if p >= q {
        exists|k: nat| log2_bracket(p, q, k) && r == 75 * k
    } else {
        exists|k: nat| log2_bracket(q, p, k) && r == -75 * (k as int)
    }
}

/// Converts a positive rational frequency ratio to fixed-point interval
/// units through the verified logarithm kernel.
pub fn rational_to_units(num: u128, den: u128) -> (r: Result<i64, RatioErrorKind>)
    ensures
        match r {
            Ok(c) => {
                &&& rational_in_range(num as nat, den as nat)
                &&& fraction_units(num as nat, den as nat, c as int)
                &&& -20132659200 <= c <= 20132659200
            },
            Err(k) => !rational_in_range(num as nat, den as nat) && k
                == RatioErrorKind::OutOfRange,
        },
{
    if num == 0 || den == 0 || num > 0x1_0000_0000_0000 || den > 0x1_0000_0000_0000 {
        return Err(RatioErrorKind::OutOfRange);
    }
    let n = num as u64;
    let d = den as u64;
    if n >= d {
        if (n as u128) >= (d as u128) * 65536 {
            return Err(RatioErrorKind::OutOfRange);
        }
        let k = log2_fixed(n, d);
        proof {
            assert(fraction_units(num as nat, den as nat, 75 * (k as int)));
        }
        Ok(75 * (k as i64))
    } else {
        if (d as u128) >= (n as u128) * 65536 {
            return Err(RatioErrorKind::OutOfRange);
        }
        let k = log2_fixed(d, n);
        proof {
            assert(fraction_units(num as nat, den as nat, -75 * (k as int)));
        }
        Ok(-75 * (k as i64))
    }
}

impl Ratio {
    /// The unison: a multiplier of exactly one.
    pub fn unison() -> (r: Ratio)
        ensures
            r@ == 0,
    {
        Ratio { units: 0 }
    }

    /// The interval whose size is `units / 2^20` cents.
    pub fn from_fixed(units: i64) -> (r: Ratio)
        ensures
            r@ == units,
    {
        Ratio { units }
    }

    /// The interval of a whole number of cents.
    pub fn from_cents(cents: i64) -> (r: Ratio)
        requires
            -4000000 <= cents <= 4000000,
        ensures
            r@ == cents * 0x100000,
    {
        Ratio { units: cents * 0x100000 }
    }

    /// The size of the interval in units of `2^-20` cent.
    pub fn as_fixed(&self) -> (r: i64)
        ensures
            r == self@,
    {
        self.units
    }

    /// The inverted interval: the reciprocal of the multiplier.
    pub fn inv(&self) -> (r: Ratio)
        requires
            self@ != i64::MIN,
        ensures
            r@ == -self@,
    {
        Ratio { units: -self.units }
    }

    /// Composes two intervals: multiplying frequency ratios adds their
    /// logarithmic sizes.
    pub fn stacked_on(&self, other: &Ratio) -> (r: Ratio)
        requires
            i64::MIN <= self@ + other@ <= i64::MAX,
        ensures
            r@ == self@ + other@,
    {
        Ratio { units: self.units + other.units }
    }

    /// The interval from `other` up to `self`: the difference of the sizes.
    pub fn minus(&self, other: &Ratio) -> (r: Ratio)
        requires
            i64::MIN <= self@ - other@ <= i64::MAX,
        ensures
            r@ == self@ - other@,
    {
        Ratio { units: self.units - other.units }
    }

    /// Whether the interval is the unison.
    pub fn is_unison(&self) -> (r: bool)
        ensures
            r == (self@ == 0),
    {
        self.units == 0
    }

    /// Exact comparison of interval sizes.
    pub fn is_less_than(&self, other: &Ratio) -> (r: bool)
        ensures
            r == (self@ < other@),
    {
        self.units < other.units
    }
}

impl Ratio {
    /// Formats the interval as an exact cents expression, e.g. `"700c"` or
    /// `"701.9549503326416015625c"`.  The text reads back to exactly this
    /// interval: the bytes have the cents shape and their
    /// [`spec_cents_value`] is exactly the stored value, which is the
    /// parse-format round-trip law.
    #[verifier::rlimit(80)]
    pub fn to_text(&self) -> (s: String)
        requires
            -MAX_RATIO_UNITS <= self@ <= MAX_RATIO_UNITS,
        ensures
            vstd::utf8::is_ascii_chars(s@),
            ascii_bytes(s@).len() >= 1,
            ascii_bytes(s@).last() == 99,
            find_byte(ascii_bytes(s@), 58) == s@.len() as int,
            spec_cents_value(ascii_bytes(s@)) == Some(self@),
    {
        let neg = self.units < 0;
        let m: u64 = if neg {
            (-self.units) as u64
        } else {
            self.units as u64
        };
        let x: u64 = m / 0x100000;
        let f: u64 = m % 0x100000;
        let mut s = String::new();
        proof {
            reveal_strlit("-");
            reveal_strlit(".");
            reveal_strlit("c");
        }
        if neg {
            s.append("-");
        }
        let ghost pre: Seq<char> = s@;
        push_digits_u64(&mut s, x);
        if f != 0 {
            s.append(".");
            push_digits_pad(&mut s, (f as u128) * 95367431640625, 20);
        }
        s.append("c");
        proof {
            let dx = char_digits(x as nat);
            let bx = ascii_bytes(dx);
            lemma_pow10_values();
            lemma_char_digits(x as nat);
            lemma_char_digits_chars(x as nat);
            lemma_char_digits_len(x as nat, 7);
            lemma_digit_chars_ascii(dx);
            vstd::arithmetic::div_mod::lemma_fundamental_div_mod(m as int, 0x100000);
            let t = ascii_bytes(s@);
            let preb: Seq<u8> = if neg {
                seq![45u8]
            } else {
                Seq::<u8>::empty()
            };
            assert(pre =~= (if neg {
                seq!['-']
            } else {
                Seq::<char>::empty()
            }));
            if f == 0 {
                assert(s@ =~= pre + dx + seq!['c']);
                assert(t =~= preb + bx + seq![99u8]);
                let body = t.subrange(preb.len() as int, t.len() - 1);
                assert(body =~= bx);
                lemma_find_byte_is(body, 46, body.len() as int);
                assert(body.take(body.len() as int) =~= body);
                assert(body + Seq::<u8>::empty() =~= body);
                assert(spec_decimal(body, 30) == Some((x as nat, 1nat)));
                assert(((x as nat) * 0x100000) as int / 1int == (x as nat) * 0x100000);
                assert(t.last() == 99);
                if neg {
                    assert(t[0] == 45);
                } else {
                    assert(t[0] == bx[0]);
                    assert(t[0] != 45);
                }
                assert(spec_cents_value(t) == Some(self@));
                assert forall|i: int| 0 <= i < t.len() implies t[i] != 58 by {
                    if preb.len() <= i < t.len() - 1 {
                        assert(t[i] == bx[i - preb.len()]);
                    }
                }
                lemma_find_byte_is(t, 58, t.len() as int);
                assert forall|i: int| 0 <= i < s@.len() implies '\0' <= #[trigger] s@[i]
                    <= '\u{7f}' by {
                    if pre.len() <= i < s@.len() - 1 {
                        assert(s@[i] == dx[i - pre.len()]);
                        assert('0' <= s@[i] <= '9');
                    }
                }
            } else {
                let fv = ((f as u128) * 95367431640625) as nat;
                let df = char_digits_pad(fv, 20);
                let bf = ascii_bytes(df);
                lemma_char_digits_pad(fv, 20);
                lemma_char_digits_pad_chars(fv, 20);
                lemma_digit_chars_ascii(df);
                assert(s@ =~= pre + dx + seq!['.'] + df + seq!['c']);
                assert(t =~= preb + bx + seq![46u8] + bf + seq![99u8]);
                let body = t.subrange(preb.len() as int, t.len() - 1);
                assert(body =~= bx + seq![46u8] + bf);
                assert forall|i: int| 0 <= i < bx.len() implies body[i] != 46 by {
                    assert(body[i] == bx[i]);
                }
                lemma_find_byte_is(body, 46, bx.len() as int);
                assert(body.take(bx.len() as int) =~= bx);
                assert(body.skip(bx.len() as int + 1) =~= bf);
                lemma_digits_val_concat(bx, bf);
                let a = (x as nat) * pow10(20) + fv;
                assert(spec_decimal(body, 30) == Some((a, pow10(20))));
                assert(a * 0x100000 == (m as nat) * pow10(20)) by (nonlinear_arith)
                    requires
                        a == (x as nat) * pow10(20) + fv,
                        fv == (f as nat) * 95367431640625,
                        pow10(20) == 95367431640625 * 0x100000,
                        m == (x as nat) * 0x100000 + f,
                ;
                vstd::arithmetic::div_mod::lemma_div_multiples_vanish(
                    m as int,
                    pow10(20) as int,
                );
                assert((a * 0x100000) as int / pow10(20) as int == m as int);
                assert(t.last() == 99);
                if neg {
                    assert(t[0] == 45);
                } else {
                    assert(t[0] == bx[0]);
                    assert(t[0] != 45);
                }
                assert(spec_cents_value(t) == Some(self@));
                assert forall|i: int| 0 <= i < t.len() implies t[i] != 58 by {
                    if preb.len() <= i < preb.len() + bx.len() {
                        assert(t[i] == bx[i - preb.len()]);
                    } else if preb.len() + bx.len() + 1 <= i < t.len() - 1 {
                        assert(t[i] == bf[i - preb.len() - bx.len() - 1]);
                    }
                }
                lemma_find_byte_is(t, 58, t.len() as int);
                assert forall|i: int| 0 <= i < s@.len() implies '\0' <= #[trigger] s@[i]
                    <= '\u{7f}' by {
                    if pre.len() <= i < pre.len() + dx.len() {
                        assert(s@[i] == dx[i - pre.len()]);
                        assert('0' <= s@[i] <= '9');
                    } else if pre.len() + dx.len() + 1 <= i < s@.len() - 1 {
                        assert(s@[i] == df[i - pre.len() - dx.len() - 1]);
                        assert('0' <= s@[i] <= '9');
                    }
                }
            }
        }
        s
    }
}

/// A parsed ratio expression: the interval itself and the number of equal
/// divisions its step notation implies (one for the other syntaxes).
#[derive(Clone, Copy, Debug, PartialEq, Eq, Structural)]
pub struct ParsedRatio {
    pub ratio: Ratio,
    pub divisions: u16,
}

/// The value of a cents expression `[-]<decimal>c` in fixed-point units,
/// truncated toward zero, or `None` if malformed.
pub open spec fn spec_cents_value(t: Seq<u8>) -> Option<int> {
    if t.len() < 1 || t.last() != 99 {
        None
    } else {
        let neg = t.len() >= 2 && t[0] == 45;
        let body = if neg {
            t.subrange(1, t.len() - 1)
        } else {
            t.subrange(0, t.len() - 1)
        };
        match spec_decimal(body, 30) {
            Some((a, d)) => {
                let mag = (a * 0x100000) as int / d as int;
                if neg {
                    Some(-mag)
                } else {
                    Some(mag)
                }
            },
            None => None,
        }
    }
}

/// `u` is the fixed-point size of `(a/da)` steps of a `(b/db)`-step equal
/// division of the frequency ratio `(c/dc)`, rounded down.
pub open spec fn steps_units(an: nat, da: nat, bn: nat, db: nat, cn: nat, dc: nat, u: int) -> bool {
    exists|k: nat|
        log2_bracket(cn, dc, k) && u == (((an * db * 75 * k) / (bn * da)) as int)
}

/// The number of divisions implied by the middle part `(b/db)` of a step
/// expression: its value rounded half-up, clamped to `1..=65535`.
pub open spec fn spec_divisions(bn: nat, db: nat) -> nat {
    let rounded = (2 * bn + db) / (2 * db);
    if rounded < 1 {
        1
    } else if rounded > 65535 {
        65535
    } else {
        rounded
    }
}

/// A step expression has exactly two colons: one at `k1`, one at `k2`,
/// and none after.
pub open spec fn steps_shape_ok(t: Seq<u8>) -> bool {
    let k1 = find_byte(t, 58);
    let k2 = k1 + 1 + find_byte(t.subrange(k1 + 1, t.len() as int), 58);
    &&& k1 < t.len()
    &&& k2 < t.len()
    &&& find_byte(t.subrange(k2 + 1, t.len() as int), 58) == t.len() - (k2 + 1)
}

/// Every reading of the step expression's value through the logarithm
/// bracket exceeds the crate-wide interval limit for at least one valid
/// bracket position (the reason an otherwise well-formed step expression
/// is rejected as out of range).
pub open spec fn steps_overflow(an: nat, da: nat, bn: nat, db: nat, cn: nat, dc: nat) -> bool {
    exists|k: nat|
        log2_bracket(cn, dc, k) && ((an * db * 75 * k) / (bn * da)) as int > MAX_RATIO_UNITS
}

/// `u` and `dv` are a correct reading of the step expression `t`
/// (`<a>:<b>:<c>`): the shape holds, the three parts are well-formed
/// decimals, the middle part is nonzero, the base is at least one and
/// within the kernel's range, `u` is the bracketed value of `a/b` steps of
/// the `c`-division within the interval limit, and `dv` is the rounded
/// middle part.
pub open spec fn spec_steps_value(t: Seq<u8>, u: int, dv: int) -> bool {
    let k1 = find_byte(t, 58);
    let k2 = k1 + 1 + find_byte(t.subrange(k1 + 1, t.len() as int), 58);
    &&& steps_shape_ok(t)
    &&& (match (
        spec_decimal(t.subrange(0, k1), 12),
        spec_decimal(t.subrange(k1 + 1, k2), 12),
        spec_decimal(t.subrange(k2 + 1, t.len() as int), 12),
    ) {
        (Some((an, da)), Some((bn, db)), Some((cn, dc))) => {
            &&& bn >= 1
            &&& cn >= dc
            &&& rational_in_range(cn, dc)
            &&& steps_units(an, da, bn, db, cn, dc, u)
            &&& 0 <= u <= MAX_RATIO_UNITS
            &&& dv == spec_divisions(bn, db)
        },
        _ => false,
    })
}

/// `u` is a correct reading of the fraction or plain decimal expression
/// `t`: the bracketed logarithm of the denoted rational, which lies in the
/// kernel's range.
pub open spec fn spec_rational_value(t: Seq<u8>, u: int) -> bool {
    let ks = find_byte(t, 47);
    if ks < t.len() {
        match (
            spec_decimal(t.subrange(0, ks), 12),
            spec_decimal(t.subrange(ks + 1, t.len() as int), 12),
        ) {
            (Some((an, da)), Some((bn, db))) => rational_in_range(an * db, bn * da)
                && fraction_units(an * db, bn * da, u),
            _ => false,
        }
    } else {
        match spec_decimal(t, 12) {
            Some((a, d)) => rational_in_range(a, d) && fraction_units(a, d, u),
            None => false,
        }
    }
}

/// The condition under which the ratio grammar rejects the text `t`:
/// empty input, a malformed part, a zero step divisor, a base below one,
/// a rational outside the kernel's range, a cents value beyond the
/// interval limit, or a step value that some bracketed reading puts
/// beyond it.  [`Ratio::parse`] fails exactly when this holds.
pub open spec fn spec_ratio_rejectable(t: Seq<u8>) -> bool {
    let k1 = find_byte(t, 58);
    let k2 = k1 + 1 + find_byte(t.subrange(k1 + 1, t.len() as int), 58);
    if t.len() == 0 {
        true
    } else if k1 < t.len() {
        !steps_shape_ok(t) || (match (
            spec_decimal(t.subrange(0, k1), 12),
            spec_decimal(t.subrange(k1 + 1, k2), 12),
            spec_decimal(t.subrange(k2 + 1, t.len() as int), 12),
        ) {
            (Some((an, da)), Some((bn, db)), Some((cn, dc))) => bn == 0 || cn < dc
                || !rational_in_range(cn, dc) || steps_overflow(an, da, bn, db, cn, dc),
            _ => true,
        })
    } else if t.last() == 99 {
        match spec_cents_value(t) {
            Some(val) => !(-MAX_RATIO_UNITS <= val <= MAX_RATIO_UNITS),
            None => true,
        }
    } else {
        let ks = find_byte(t, 47);
        if ks < t.len() {
            match (
                spec_decimal(t.subrange(0, ks), 12),
                spec_decimal(t.subrange(ks + 1, t.len() as int), 12),
            ) {
                (Some((an, da)), Some((bn, db))) => !rational_in_range(an * db, bn * da),
                _ => true,
            }
        } else {
            match spec_decimal(t, 12) {
                Some((a, d)) => !rational_in_range(a, d),
                None => true,
            }
        }
    }
}

/// `u` and `dv` are a correct reading of the ratio expression `t`,
/// whichever of the four syntaxes applies: step notation when a colon is
/// present, cents when the text ends in `c`, otherwise a fraction or a
/// plain decimal.
pub open spec fn spec_ratio_value(t: Seq<u8>, u: int, dv: int) -> bool {
    if find_byte(t, 58) < t.len() {
        spec_steps_value(t, u, dv)
    } else if t.len() >= 1 && t.last() == 99 {
        spec_cents_value(t) == Some(u) && -MAX_RATIO_UNITS <= u <= MAX_RATIO_UNITS && dv == 1
    } else {
        spec_rational_value(t, u) && dv == 1
    }
}

/// Parses the cents syntax `[-]<decimal>c` found in `v`.
fn parse_cents_form(v: &Vec<u8>) -> (r: Result<(i64, u16), RatioErrorKind>)
    requires
        v@.len() >= 1,
        v@.last() == 99,
    ensures
        match r {
            Ok((u, dv)) => {
                &&& spec_cents_value(v@) == Some(u as int)
                &&& -MAX_RATIO_UNITS <= u <= MAX_RATIO_UNITS
                &&& dv == 1
            },
            Err(k) => match spec_cents_value(v@) {
                Some(val) => k == RatioErrorKind::OutOfRange && !(-MAX_RATIO_UNITS <= val
                    <= MAX_RATIO_UNITS),
                None => k == RatioErrorKind::Malformed,
            },
        },
{
    let len = v.len();
    let neg = len >= 2 && v[0] == 45;
    let start: usize = if neg {
        1
    } else {
        0
    };
    match parse_decimal(v, start, len - 1, 30) {
        Some((a, d)) => {
            proof {
                if neg {
                    assert(v@.subrange(1, v@.len() - 1) == v@.subrange(
                        start as int,
                        (len - 1) as int,
                    ));
                } else {
                    assert(v@.subrange(0, v@.len() - 1) == v@.subrange(
                        start as int,
                        (len - 1) as int,
                    ));
                }
                lemma_pow10_values();
            }
            let mag = (a * 0x100000) / d;
            if mag > MAX_RATIO_UNITS as u128 {
                return Err(RatioErrorKind::OutOfRange);
            }
            if neg {
                Ok((-(mag as i64), 1))
            } else {
                Ok((mag as i64, 1))
            }
        },
        None => Err(RatioErrorKind::Malformed),
    }
}

/// Parses the step syntax `<a>:<b>:<c>` found in `v`, `k1` being the
/// position of the first colon.
fn parse_steps_form(v: &Vec<u8>, k1: usize) -> (r: Result<(i64, u16), RatioErrorKind>)
    requires
        k1 < v@.len(),
        k1 == find_byte(v@, 58),
    ensures
        match r {
            Ok((u, dv)) => {
                &&& spec_steps_value(v@, u as int, dv as int)
                &&& 0 <= u <= MAX_RATIO_UNITS
                &&& 1 <= dv <= 65535
            },
            Err(k) => {
                let k2 = k1 + 1 + find_byte(v@.subrange(k1 + 1, v@.len() as int), 58);
                if !steps_shape_ok(v@) {
                    k == RatioErrorKind::Malformed
                } else {
                    match (
                        spec_decimal(v@.subrange(0, k1 as int), 12),
                        spec_decimal(v@.subrange(k1 + 1, k2 as int), 12),
                        spec_decimal(v@.subrange(k2 + 1, v@.len() as int), 12),
                    ) {
                        (Some((an, da)), Some((bn, db)), Some((cn, dc))) => {
                            if bn == 0 {
                                k == RatioErrorKind::Malformed
                            } else {
                                k == RatioErrorKind::OutOfRange && (cn < dc
                                    || !rational_in_range(cn, dc) || steps_overflow(
                                    an,
                                    da,
                                    bn,
                                    db,
                                    cn,
                                    dc,
                                ))
                            }
                        },
                        _ => k == RatioErrorKind::Malformed,
                    }
                }
            },
        },
{
    let len = v.len();
    let k2 = find_byte_in(v, k1 + 1, len, 58);
    if k2 >= len {
        return Err(RatioErrorKind::Malformed);
    }
    let k3 = find_byte_in(v, k2 + 1, len, 58);
    if k3 < len {
        return Err(RatioErrorKind::Malformed);
    }
    let (an, da) = match parse_decimal(v, 0, k1, 12) {
        Some(x) => x,
        None => {
            return Err(RatioErrorKind::Malformed);
        },
    };
    let (bn, db) = match parse_decimal(v, k1 + 1, k2, 12) {
        Some(x) => x,
        None => {
            return Err(RatioErrorKind::Malformed);
        },
    };
    let (cn, dc) = match parse_decimal(v, k2 + 1, len, 12) {
        Some(x) => x,
        None => {
            return Err(RatioErrorKind::Malformed);
        },
    };
    if bn == 0 {
        return Err(RatioErrorKind::Malformed);
    }
    if cn < dc {
        return Err(RatioErrorKind::OutOfRange);
    }
    if cn > 0x1_0000_0000_0000 || cn >= dc * 65536 {
        proof {
            assert(!rational_in_range(cn as nat, dc as nat));
        }
        return Err(RatioErrorKind::OutOfRange);
    }
    proof {
        lemma_pow10_values();
        assert((dc as int) < (cn as int) * 65536) by (nonlinear_arith)
            requires
                1 <= dc <= cn,
        ;
        assert(rational_in_range(cn as nat, dc as nat));
    }
    let k = log2_fixed(cn as u64, dc as u64);
    // an * db * 75 * k stays below 2^128: each decimal part is below 10^12
    // and k is below 2^28.
    proof {
        assert(an * db < 0xd3c21bcecceda1000000) by (nonlinear_arith)
            requires
                an < 0xe8d4a51000,
                db <= 0xe8d4a51000,
        ;
        assert(an * db * 75 * (k as int) < 0xd3c21bcecceda1000000 * 75 * 0x10000000)
            by (nonlinear_arith)
            requires
                an * db < 0xd3c21bcecceda1000000,
                0 <= an * db,
                0 <= k < 0x10000000,
        ;
        assert(bn * da >= 1) by (nonlinear_arith)
            requires
                bn >= 1,
                da >= 1,
        ;
        assert(bn * da <= 0xd3c21bcecceda1000000) by (nonlinear_arith)
            requires
                bn < 0xe8d4a51000,
                da <= 0xe8d4a51000,
        ;
    }
    let numer: u128 = an * db * 75 * (k as u128);
    let denom: u128 = bn * da;
    let u128v: u128 = numer / denom;
    if u128v > MAX_RATIO_UNITS as u128 {
        proof {
            assert(steps_overflow(
                an as nat,
                da as nat,
                bn as nat,
                db as nat,
                cn as nat,
                dc as nat,
            ));
        }
        return Err(RatioErrorKind::OutOfRange);
    }
    proof {
        assert(steps_units(
            an as nat,
            da as nat,
            bn as nat,
            db as nat,
            cn as nat,
            dc as nat,
            u128v as int,
        ));
    }
    let dv128: u128 = (2 * bn + db) / (2 * db);
    let dv: u16 = if dv128 < 1 {
        1
    } else if dv128 > 65535 {
        65535
    } else {
        dv128 as u16
    };
    Ok((u128v as i64, dv))
}

/// Parses `v` as a fraction or plain decimal: the rational `num / den`.
fn parse_rational_form(v: &Vec<u8>) -> (r: Result<(i64, u16), RatioErrorKind>)
    ensures
        ({
            let ks = find_byte(v@, 47);
            match r {
                Ok((u, dv)) => {
                    &&& dv == 1
                    &&& -MAX_RATIO_UNITS <= u <= MAX_RATIO_UNITS
                    &&& spec_rational_value(v@, u as int)
                },
                Err(k) => {
                    if ks < v@.len() {
                        match (
                            spec_decimal(v@.subrange(0, ks), 12),
                            spec_decimal(v@.subrange(ks + 1, v@.len() as int), 12),
                        ) {
                            (Some((an, da)), Some((bn, db))) => k == RatioErrorKind::OutOfRange
                                && !rational_in_range(an * db, bn * da),
                            _ => k == RatioErrorKind::Malformed,
                        }
                    } else {
                        match spec_decimal(v@, 12) {
                            Some((a, d)) => k == RatioErrorKind::OutOfRange
                                && !rational_in_range(a, d),
                            None => k == RatioErrorKind::Malformed,
                        }
                    }
                },
            }
        }),
{
    let len = v.len();
    proof {
        assert(v@.subrange(0, v@.len() as int) == v@);
    }
    let ks = find_byte_in(v, 0, len, 47);
    if ks < len {
        let (an, da) = match parse_decimal(v, 0, ks, 12) {
            Some(x) => x,
            None => {
                return Err(RatioErrorKind::Malformed);
            },
        };
        let (bn, db) = match parse_decimal(v, ks + 1, len, 12) {
            Some(x) => x,
            None => {
                return Err(RatioErrorKind::Malformed);
            },
        };
        proof {
            lemma_pow10_values();
            assert(an * db < 0xd3c21bcecceda1000000) by (nonlinear_arith)
                requires
                    an < 0xe8d4a51000,
                    db <= 0xe8d4a51000,
            ;
            assert(bn * da < 0xd3c21bcecceda1000000) by (nonlinear_arith)
                requires
                    bn < 0xe8d4a51000,
                    da <= 0xe8d4a51000,
            ;
        }
        match rational_to_units(an * db, bn * da) {
            Ok(u) => Ok((u, 1)),
            Err(k) => Err(k),
        }
    } else {
        let (a, d) = match parse_decimal(v, 0, len, 12) {
            Some(x) => x,
            None => {
                return Err(RatioErrorKind::Malformed);
            },
        };
        proof {
            assert(v@.subrange(0, v@.len() as int) == v@);
        }
        match rational_to_units(a, d) {
            Ok(u) => Ok((u, 1)),
            Err(k) => Err(k),
        }
    }
}

impl Ratio {
    /// Parses any of the four interval syntaxes: cents (`"700c"`), a
    /// fraction (`"3/2"`), a plain decimal (`"1.5"`) or step notation
    /// (`"1:12:2"`, one step of a twelve-step division of the ratio two).
    /// On success the result is a correct reading of the text per
    /// [`spec_ratio_value`]; on failure the error kind says exactly what
    /// went wrong in the branch the text's shape selects.
    pub fn parse(s: &str) -> (r: Result<ParsedRatio, RatioError>)
        ensures
            match r {
                Ok(pr) => {
                    &&& -MAX_RATIO_UNITS <= pr.ratio@ <= MAX_RATIO_UNITS
                    &&& 1 <= pr.divisions
                    &&& vstd::string::is_ascii(s)
                    &&& spec_ratio_value(ascii_bytes(s@), pr.ratio@, pr.divisions as int)
                },
                Err(e) => {
                    &&& e.offending@ == s@
                    &&& (e.kind == RatioErrorKind::NotAscii <==> !vstd::string::is_ascii(s))
                },
            },
            vstd::string::is_ascii(s) && r is Err ==> spec_ratio_rejectable(ascii_bytes(s@)),
            // The error classification, by the branch the text's shape
            // selects: step notation first, then cents, then rationals.
            ({
                let t = ascii_bytes(s@);
                let k1 = find_byte(t, 58);
                let k2 = k1 + 1 + find_byte(t.subrange(k1 + 1, t.len() as int), 58);
                vstd::string::is_ascii(s) && r is Err ==> ({
                    let e = r->Err_0;
                    if t.len() == 0 {
                        e.kind == RatioErrorKind::Malformed
                    } else if k1 < t.len() {
                        if !steps_shape_ok(t) {
                            e.kind == RatioErrorKind::Malformed
                        } else {
                            match (
                                spec_decimal(t.subrange(0, k1), 12),
                                spec_decimal(t.subrange(k1 + 1, k2), 12),
                                spec_decimal(t.subrange(k2 + 1, t.len() as int), 12),
                            ) {
                                (Some((an, da)), Some((bn, db)), Some((cn, dc))) => {
                                    if bn == 0 {
                                        e.kind == RatioErrorKind::Malformed
                                    } else {
                                        e.kind == RatioErrorKind::OutOfRange && (cn < dc
                                            || !rational_in_range(cn, dc) || steps_overflow(
                                            an,
                                            da,
                                            bn,
                                            db,
                                            cn,
                                            dc,
                                        ))
                                    }
                                },
                                _ => e.kind == RatioErrorKind::Malformed,
                            }
                        }
                    } else if t.last() == 99 {
                        match spec_cents_value(t) {
                            Some(val) => e.kind == RatioErrorKind::OutOfRange && !(
                            -MAX_RATIO_UNITS <= val <= MAX_RATIO_UNITS),
                            None => e.kind == RatioErrorKind::Malformed,
                        }
                    } else {
                        let ks = find_byte(t, 47);
                        if ks < t.len() {
                            match (
                                spec_decimal(t.subrange(0, ks), 12),
                                spec_decimal(t.subrange(ks + 1, t.len() as int), 12),
                            ) {
                                (Some((an, da)), Some((bn, db))) => e.kind
                                    == RatioErrorKind::OutOfRange && !rational_in_range(
                                    an * db,
                                    bn * da,
                                ),
                                _ => e.kind == RatioErrorKind::Malformed,
                            }
                        } else {
                            match spec_decimal(t, 12) {
                                Some((a, d)) => e.kind == RatioErrorKind::OutOfRange
                                    && !rational_in_range(a, d),
                                None => e.kind == RatioErrorKind::Malformed,
                            }
                        }
                    }
                })
            }),
    {
        if !s.is_ascii() {
            return Err(
                RatioError { kind: RatioErrorKind::NotAscii, offending: s.to_owned() },
            );
        }
        let v = s.as_bytes_vec();
        proof {
            vstd::string::is_ascii_spec_bytes(s);
            assert(v@ =~= ascii_bytes(s@));
        }
        let len = v.len();
        if len == 0 {
            return Err(
                RatioError { kind: RatioErrorKind::Malformed, offending: s.to_owned() },
            );
        }
        let k1 = find_byte_in(&v, 0, len, 58);
        proof {
            assert(v@.subrange(0, v@.len() as int) == v@);
        }
        let parsed = if k1 < len {
            parse_steps_form(&v, k1)
        } else if v[len - 1] == 99 {
            parse_cents_form(&v)
        } else {
            parse_rational_form(&v)
        };
        match parsed {
            Ok((u, dv)) => Ok(ParsedRatio { ratio: Ratio { units: u }, divisions: dv }),
            Err(k) => Err(RatioError { kind: k, offending: s.to_owned() }),
        }
    }
}

} // verus!
