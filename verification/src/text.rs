//! ASCII text helpers: digit runs, decimal numbers and digit printing,
//! with exact specifications used by the parsers and formatters.

use vstd::prelude::*;

verus! {

/// The ASCII bytes of a sequence of ASCII characters.
pub open spec fn ascii_bytes(s: Seq<char>) -> Seq<u8> {
    Seq::new(s.len(), |i: int| s[i] as u8)
}

/// Whether `b` is an ASCII decimal digit.
pub open spec fn is_digit_byte(b: u8) -> bool {
    48 <= b <= 57
}

/// The numeric value of an ASCII digit.
pub open spec fn digit_val(b: u8) -> nat {
    (b - 48) as nat
}

/// Whether the whole sequence consists of ASCII digits.
pub open spec fn all_digits(s: Seq<u8>) -> bool {
    forall|i: int| 0 <= i < s.len() ==> is_digit_byte(#[trigger] s[i])
}

/// The number denoted by a run of ASCII digits, most significant first.
pub open spec fn digits_val(s: Seq<u8>) -> nat
    decreases s.len(),
{
    if s.len() == 0 {
        0
    } else {
        digits_val(s.drop_last()) * 10 + digit_val(s.last())
    }
}

/// `10^n`.
pub open spec fn pow10(n: nat) -> nat
    decreases n,
{
    if n == 0 {
        1nat
    } else {
        10 * pow10((n - 1) as nat)
    }
}

/// Concrete values of the powers of ten that the parsers care about.
pub proof fn lemma_pow10_values()
    ensures
        pow10(0) == 1,
        pow10(1) == 10,
        pow10(2) == 100,
        pow10(3) == 1000,
        pow10(6) == 1000000,
        pow10(7) == 10000000,
        pow10(12) == 0xe8d4a51000,
        pow10(20) == 0x56bc75e2d63100000,
        pow10(30) == 0xc9f2c9cd04674edea40000000,
{
    reveal_with_fuel(pow10, 31);
}

/// `pow10` is monotone in the exponent.
pub proof fn lemma_pow10_le(a: nat, b: nat)
    requires
        a <= b,
    ensures
        pow10(a) <= pow10(b),
    decreases b,
{
    if a < b {
        lemma_pow10_le(a, (b - 1) as nat);
    }
}

/// A digit run of length `n` denotes a value below `10^n`.
pub proof fn lemma_digits_val_bound(s: Seq<u8>)
    requires
        all_digits(s),
    ensures
        digits_val(s) < pow10(s.len()),
    decreases s.len(),
{
    if s.len() > 0 {
        assert(all_digits(s.drop_last())) by {
            assert(forall|i: int|
                0 <= i < s.len() - 1 ==> s.drop_last()[i] == #[trigger] s[i]);
        }
        lemma_digits_val_bound(s.drop_last());
    }
}

/// Index of the first occurrence of `x` in `s`, or `s.len()` if absent.
pub open spec fn find_byte(s: Seq<u8>, x: u8) -> int
    decreases s.len(),
{
    if s.len() == 0 {
        0
    } else if s[0] == x {
        0
    } else {
        1 + find_byte(s.drop_first(), x)
    }
}

/// `find_byte` is characterized by "no occurrence before, occurrence or end at".
pub proof fn lemma_find_byte_is(s: Seq<u8>, x: u8, j: int)
    requires
        0 <= j <= s.len(),
        forall|i: int| 0 <= i < j ==> s[i] != x,
        j == s.len() || s[j] == x,
    ensures
        find_byte(s, x) == j,
    decreases s.len(),
{
    if s.len() > 0 && s[0] != x {
        assert(forall|i: int|
            0 <= i < j - 1 ==> s.drop_first()[i] == #[trigger] s[i + 1]);
        lemma_find_byte_is(s.drop_first(), x, j - 1);
    }
}

/// Everything `find_byte` promises about its result.
pub proof fn lemma_find_byte_bounds(s: Seq<u8>, x: u8)
    ensures
        0 <= find_byte(s, x) <= s.len(),
        forall|i: int| 0 <= i < find_byte(s, x) ==> s[i] != x,
        find_byte(s, x) < s.len() ==> s[find_byte(s, x)] == x,
    decreases s.len(),
{
    if s.len() > 0 && s[0] != x {
        lemma_find_byte_bounds(s.drop_first(), x);
        assert(forall|i: int|
            1 <= i < find_byte(s, x) ==> #[trigger] s[i] == s.drop_first()[i - 1]);
    }
}

/// First index of `x` in `v[from..to]`, as an absolute index; `to` if absent.
pub fn find_byte_in(v: &Vec<u8>, from: usize, to: usize, x: u8) -> (j: usize)
    requires
        from <= to <= v@.len(),
    ensures
        from <= j <= to,
        j - from == find_byte(v@.subrange(from as int, to as int), x),
{
    let mut j = from;
    while j < to
        invariant
            from <= j <= to <= v@.len(),
            forall|i: int| from <= i < j ==> v@[i] != x,
        decreases to - j,
    {
        if v[j] == x {
            proof {
                let sub = v@.subrange(from as int, to as int);
                assert(forall|i: int|
                    0 <= i < j - from ==> sub[i] == #[trigger] v@[i + from]);
                lemma_find_byte_is(sub, x, j - from);
            }
            return j;
        }
        j = j + 1;
    }
    proof {
        let sub = v@.subrange(from as int, to as int);
        assert(forall|i: int| 0 <= i < to - from ==> sub[i] == #[trigger] v@[i + from]);
        lemma_find_byte_is(sub, x, to - from);
    }
    to
}

/// Parses `v[from..to]` as a run of ASCII digits, at most `cap` of them.
/// An empty run is accepted and denotes zero.
pub fn parse_digits(v: &Vec<u8>, from: usize, to: usize, cap: usize) -> (r: Option<u128>)
    requires
        from <= to <= v@.len(),
        cap <= 30,
    ensures
        match r {
            Some(n) => {
                &&& to - from <= cap
                &&& all_digits(v@.subrange(from as int, to as int))
                &&& n == digits_val(v@.subrange(from as int, to as int))
                &&& n < pow10((to - from) as nat)
            },
            None => !(to - from <= cap && all_digits(
                v@.subrange(from as int, to as int),
            )),
        },
{
    if to - from > cap {
        return None;
    }
    let mut acc: u128 = 0;
    let mut j = from;
    proof {
        assert(v@.subrange(from as int, from as int) =~= Seq::<u8>::empty());
    }
    while j < to
        invariant
            from <= j <= to <= v@.len(),
            to - from <= 30,
            all_digits(v@.subrange(from as int, j as int)),
            acc == digits_val(v@.subrange(from as int, j as int)),
            acc < pow10((j - from) as nat),
        decreases to - j,
    {
        let b = v[j];
        if b < 48 || b > 57 {
            proof {
                let sub = v@.subrange(from as int, to as int);
                assert(sub[j - from] == b);
            }
            return None;
        }
        proof {
            lemma_pow10_le((j - from) as nat, 29);
            lemma_pow10_values();
            lemma_pow10_le(29, 30);
            assert(pow10(29) * 10 == pow10(30)) by {
                reveal_with_fuel(pow10, 31);
            }
            let s1 = v@.subrange(from as int, (j + 1) as int);
            assert(s1.drop_last() =~= v@.subrange(from as int, j as int));
            assert(s1.last() == v@[j as int]);
        }
        acc = acc * 10 + ((b - 48) as u128);
        j = j + 1;
    }
    Some(acc)
}

/// Splits a digit run at a concatenation point: the leading digits shift
/// left by one decimal place per trailing digit.
pub proof fn lemma_digits_val_concat(a: Seq<u8>, b: Seq<u8>)
    ensures
        digits_val(a + b) == digits_val(a) * pow10(b.len()) + digits_val(b),
    decreases b.len(),
{
    if b.len() == 0 {
        assert(a + b =~= a);
        assert(pow10(0) == 1);
    } else {
        lemma_digits_val_concat(a, b.drop_last());
        assert((a + b).drop_last() =~= a + b.drop_last());
        assert((a + b).last() == b.last());
        let da = digits_val(a);
        let dl = digits_val(b.drop_last());
        let p1 = pow10((b.len() - 1) as nat);
        assert(digits_val(a + b) == (da * p1 + dl) * 10 + digit_val(b.last()));
        assert((da * p1 + dl) * 10 == da * (p1 * 10) + dl * 10) by (nonlinear_arith);
        assert(p1 * 10 == pow10(b.len())) by {
            assert(pow10(b.len()) == 10 * pow10((b.len() - 1) as nat));
        }
        assert(digits_val(b) == dl * 10 + digit_val(b.last()));
    }
}

/// The value denoted by `v[from..to]` read as a decimal number with an
/// optional decimal point: a pair `(numerator, power-of-ten denominator)`.
/// Rejected when a part is not made of digits, there are no digits at all,
/// or there are more than `cap` digits in total.
pub open spec fn spec_decimal(s: Seq<u8>, cap: nat) -> Option<(nat, nat)> {
    let k = find_byte(s, 46);
    let ip = s.take(k);
    let fp = if k < s.len() {
        s.skip(k + 1)
    } else {
        Seq::<u8>::empty()
    };
    if all_digits(ip) && all_digits(fp) && 1 <= ip.len() + fp.len() <= cap {
        Some((digits_val(ip + fp), pow10(fp.len())))
    } else {
        None
    }
}

/// Parses `v[from..to]` as a decimal number per [`spec_decimal`].
pub fn parse_decimal(v: &Vec<u8>, from: usize, to: usize, cap: usize) -> (r: Option<
    (u128, u128),
>)
    requires
        from <= to <= v@.len(),
        cap <= 30,
    ensures
        match r {
            Some((n, d)) => {
                &&& spec_decimal(v@.subrange(from as int, to as int), cap as nat) == Some(
                    (n as nat, d as nat),
                )
                &&& n < pow10(cap as nat)
                &&& 1 <= d <= pow10(cap as nat)
            },
            None => spec_decimal(v@.subrange(from as int, to as int), cap as nat) is None,
        },
{
    let ghost s = v@.subrange(from as int, to as int);
    let k = find_byte_in(v, from, to, 46);
    proof {
        lemma_find_byte_bounds(s, 46);
    }
    let ghost ip = s.take(k - from);
    let ghost fp = if k < to {
        s.skip(k - from + 1)
    } else {
        Seq::<u8>::empty()
    };
    proof {
        assert(ip =~= v@.subrange(from as int, k as int));
        if k < to {
            assert(fp =~= v@.subrange((k + 1) as int, to as int));
        }
    }
    let ip_len = k - from;
    let fp_len = if k < to {
        to - k - 1
    } else {
        0
    };
    if ip_len + fp_len < 1 || ip_len + fp_len > cap {
        return None;
    }
    let n_ip = match parse_digits(v, from, k, cap) {
        Some(n) => n,
        None => {
            return None;
        },
    };
    let n_fp = if k < to {
        match parse_digits(v, k + 1, to, cap) {
            Some(n) => n,
            None => {
                return None;
            },
        }
    } else {
        proof {
            assert(digits_val(fp) == 0);
        }
        0
    };
    let den = pow10_u128(fp_len);
    proof {
        lemma_digits_val_concat(ip, fp);
        lemma_pow10_le(0, fp_len as nat);
        lemma_pow10_le(fp_len as nat, cap as nat);
        lemma_pow10_le(ip_len as nat, cap as nat);
        lemma_digits_val_bound(ip);
        lemma_digits_val_bound(fp);
        lemma_pow10_values();
        lemma_pow10_le(cap as nat, 30);
        // n_ip * den + n_fp == digits_val(ip + fp) < pow10(ip_len + fp_len) <= pow10(cap).
        assert(digits_val(ip) * pow10(fp.len()) + digits_val(fp) < pow10(
            (ip.len() + fp.len()) as nat,
        )) by {
            lemma_digits_val_concat(ip, fp);
            lemma_digits_val_bound(ip + fp);
            assert((ip + fp).len() == ip.len() + fp.len());
        }
        lemma_pow10_le((ip.len() + fp.len()) as nat, cap as nat);
    }
    let n = n_ip * den + n_fp;
    Some((n, den))
}

/// The ASCII character for a decimal digit.
pub open spec fn digit_char(d: nat) -> char {
    if d == 0 {
        '0'
    } else if d == 1 {
        '1'
    } else if d == 2 {
        '2'
    } else if d == 3 {
        '3'
    } else if d == 4 {
        '4'
    } else if d == 5 {
        '5'
    } else if d == 6 {
        '6'
    } else if d == 7 {
        '7'
    } else if d == 8 {
        '8'
    } else {
        '9'
    }
}

/// The decimal digit characters of `v`, most significant first, without
/// leading zeros (a single zero for `v == 0`).
pub open spec fn char_digits(v: nat) -> Seq<char>
    decreases v,
{
    if v < 10 {
        seq![digit_char(v)]
    } else {
        char_digits(v / 10).push(digit_char(v % 10))
    }
}

/// Exactly `n` decimal digit characters of `v`, zero-padded on the left.
pub open spec fn char_digits_pad(v: nat, n: nat) -> Seq<char>
    decreases n,
{
    if n == 0 {
        Seq::<char>::empty()
    } else {
        char_digits_pad(v / 10, (n - 1) as nat).push(digit_char(v % 10))
    }
}

/// The characters printed for `v` read back as the number `v`.
pub proof fn lemma_char_digits(v: nat)
    ensures
        all_digits(ascii_bytes(char_digits(v))),
        digits_val(ascii_bytes(char_digits(v))) == v,
        1 <= char_digits(v).len(),
        v < pow10(char_digits(v).len()),
    decreases v,
{
    if v < 10 {
        let s = ascii_bytes(char_digits(v));
        assert(s.len() == 1);
        assert(s[0] == digit_char(v) as u8);
        assert(s.drop_last() =~= Seq::<u8>::empty());
        assert(digits_val(Seq::<u8>::empty()) == 0);
        assert(digits_val(s) == digit_val(s[0]));
        assert(pow10(1) == 10) by {
            lemma_pow10_values();
        }
    } else {
        lemma_char_digits(v / 10);
        let t = ascii_bytes(char_digits(v / 10));
        let s = ascii_bytes(char_digits(v));
        assert(s =~= t.push(digit_char(v % 10) as u8));
        assert(s.drop_last() =~= t);
        assert(digits_val(s) == digits_val(t) * 10 + digit_val(s.last()));
        assert(digit_val(s.last()) == v % 10);
        assert((v / 10) * 10 + v % 10 == v);
        assert(pow10(char_digits(v).len()) == 10 * pow10(char_digits(v / 10).len()));
        assert(v < 10 * pow10(char_digits(v / 10).len())) by (nonlinear_arith)
            requires
                v / 10 < pow10(char_digits(v / 10).len()),
                (v / 10) * 10 + v % 10 == v,
                0 <= v % 10 < 10,
        ;
    }
}

/// If `v < 10^n` then `v` prints in at most `n` digits.
pub proof fn lemma_char_digits_len(v: nat, n: nat)
    requires
        v < pow10(n),
        1 <= n,
    ensures
        char_digits(v).len() <= n,
    decreases n,
{
    if v >= 10 {
        assert(pow10(n) == 10 * pow10((n - 1) as nat));
        assert(v / 10 < pow10((n - 1) as nat)) by (nonlinear_arith)
            requires
                v < 10 * pow10((n - 1) as nat),
                (v / 10) * 10 + v % 10 == v,
                0 <= v % 10 < 10,
        ;
        assert(pow10((n - 1) as nat) >= pow10(1) == 10) by {
            lemma_pow10_values();
            if n >= 2 {
                lemma_pow10_le(1, (n - 1) as nat);
            }
        }
        lemma_char_digits_len(v / 10, (n - 1) as nat);
    }
}

/// The padded characters of `v` read back as `v` when `v < 10^n`.
pub proof fn lemma_char_digits_pad(v: nat, n: nat)
    requires
        v < pow10(n),
    ensures
        all_digits(ascii_bytes(char_digits_pad(v, n))),
        digits_val(ascii_bytes(char_digits_pad(v, n))) == v,
        char_digits_pad(v, n).len() == n,
    decreases n,
{
    if n == 0 {
        assert(ascii_bytes(char_digits_pad(v, n)) =~= Seq::<u8>::empty());
    } else {
        assert(pow10(n) == 10 * pow10((n - 1) as nat));
        assert(v / 10 < pow10((n - 1) as nat)) by (nonlinear_arith)
            requires
                v < 10 * pow10((n - 1) as nat),
                (v / 10) * 10 + v % 10 == v,
                0 <= v % 10 < 10,
        ;
        lemma_char_digits_pad(v / 10, (n - 1) as nat);
        let t = ascii_bytes(char_digits_pad(v / 10, (n - 1) as nat));
        let s = ascii_bytes(char_digits_pad(v, n));
        assert(s =~= t.push(digit_char(v % 10) as u8));
        assert(s.drop_last() =~= t);
        assert(digit_val(s.last()) == v % 10);
        assert((v / 10) * 10 + v % 10 == v);
    }
}

/// Every character printed for `v` is a decimal digit character.
pub proof fn lemma_char_digits_chars(v: nat)
    ensures
        forall|i: int|
            0 <= i < char_digits(v).len() ==> '0' <= #[trigger] char_digits(v)[i] <= '9',
    decreases v,
{
    if v >= 10 {
        lemma_char_digits_chars(v / 10);
        assert(forall|i: int|
            0 <= i < char_digits(v).len() - 1 ==> #[trigger] char_digits(v)[i] == char_digits(
                v / 10,
            )[i]);
    }
}

/// Every zero-padded character printed for `v` is a decimal digit character.
pub proof fn lemma_char_digits_pad_chars(v: nat, n: nat)
    ensures
        forall|i: int|
            0 <= i < char_digits_pad(v, n).len() ==> '0' <= #[trigger] char_digits_pad(v, n)[i]
                <= '9',
    decreases n,
{
    if n > 0 {
        lemma_char_digits_pad_chars(v / 10, (n - 1) as nat);
        assert(forall|i: int|
            0 <= i < char_digits_pad(v, n).len() - 1 ==> #[trigger] char_digits_pad(v, n)[i]
                == char_digits_pad(v / 10, (n - 1) as nat)[i]);
    }
}

/// Digit characters are ASCII, their bytes are digit bytes, and they are
/// none of the punctuation bytes the ratio grammar dispatches on.
pub proof fn lemma_digit_chars_ascii(s: Seq<char>)
    requires
        forall|i: int| 0 <= i < s.len() ==> '0' <= #[trigger] s[i] <= '9',
    ensures
        vstd::utf8::is_ascii_chars(s),
        all_digits(ascii_bytes(s)),
        forall|i: int|
            0 <= i < s.len() ==> {
                let b = #[trigger] ascii_bytes(s)[i];
                b != 45 && b != 46 && b != 58 && b != 99
            },
{
    assert forall|i: int| 0 <= i < s.len() implies '\0' <= #[trigger] s[i] <= '\u{7f}' by {
        assert('0' <= s[i] <= '9');
    }
    assert forall|i: int| 0 <= i < s.len() implies is_digit_byte(#[trigger] ascii_bytes(s)[i]) by {
        assert('0' <= s[i] <= '9');
        assert(48 <= s[i] as u8 <= 57);
    }
}

/// Appends one decimal digit character.
pub fn push_digit(s: &mut String, d: u8)
    requires
        d < 10,
    ensures
        final(s)@ == old(s)@ + seq![digit_char(d as nat)],
{
    if d == 0 {
        proof {
            reveal_strlit("0");
        }
        s.append("0");
        proof {
            assert(s@ =~= old(s)@ + seq![digit_char(d as nat)]);
        }
    } else if d == 1 {
        proof {
            reveal_strlit("1");
        }
        s.append("1");
        proof {
            assert(s@ =~= old(s)@ + seq![digit_char(d as nat)]);
        }
    } else if d == 2 {
        proof {
            reveal_strlit("2");
        }
        s.append("2");
        proof {
            assert(s@ =~= old(s)@ + seq![digit_char(d as nat)]);
        }
    } else if d == 3 {
        proof {
            reveal_strlit("3");
        }
        s.append("3");
        proof {
            assert(s@ =~= old(s)@ + seq![digit_char(d as nat)]);
        }
    } else if d == 4 {
        proof {
            reveal_strlit("4");
        }
        s.append("4");
        proof {
            assert(s@ =~= old(s)@ + seq![digit_char(d as nat)]);
        }
    } else if d == 5 {
        proof {
            reveal_strlit("5");
        }
        s.append("5");
        proof {
            assert(s@ =~= old(s)@ + seq![digit_char(d as nat)]);
        }
    } else if d == 6 {
        proof {
            reveal_strlit("6");
        }
        s.append("6");
        proof {
            assert(s@ =~= old(s)@ + seq![digit_char(d as nat)]);
        }
    } else if d == 7 {
        proof {
            reveal_strlit("7");
        }
        s.append("7");
        proof {
            assert(s@ =~= old(s)@ + seq![digit_char(d as nat)]);
        }
    } else if d == 8 {
        proof {
            reveal_strlit("8");
        }
        s.append("8");
        proof {
            assert(s@ =~= old(s)@ + seq![digit_char(d as nat)]);
        }
    } else {
        proof {
            reveal_strlit("9");
        }
        s.append("9");
        proof {
            assert(s@ =~= old(s)@ + seq![digit_char(d as nat)]);
        }
    }
}

/// Appends the decimal digits of `v`, most significant first.
pub fn push_digits_u64(s: &mut String, v: u64)
    ensures
        final(s)@ == old(s)@ + char_digits(v as nat),
    decreases v,
{
    if v < 10 {
        push_digit(s, v as u8);
    } else {
        push_digits_u64(s, v / 10);
        push_digit(s, (v % 10) as u8);
        proof {
            assert(s@ =~= old(s)@ + char_digits(v as nat));
        }
    }
}

/// Appends exactly `n` decimal digits of `v`, zero-padded on the left.
pub fn push_digits_pad(s: &mut String, v: u128, n: usize)
    ensures
        final(s)@ == old(s)@ + char_digits_pad(v as nat, n as nat),
    decreases n,
{
    if n == 0 {
        proof {
            assert(s@ =~= old(s)@ + char_digits_pad(v as nat, 0));
        }
    } else {
        push_digits_pad(s, v / 10, n - 1);
        push_digit(s, (v % 10) as u8);
        proof {
            assert(s@ =~= old(s)@ + char_digits_pad(v as nat, n as nat));
        }
    }
}

/// `10^n` as an executable value.
pub fn pow10_u128(n: usize) -> (r: u128)
    requires
        n <= 30,
    ensures
        r == pow10(n as nat),
{
    let mut acc: u128 = 1;
    let mut j: usize = 0;
    while j < n
        invariant
            j <= n <= 30,
            acc == pow10(j as nat),
        decreases n - j,
    {
        proof {
            lemma_pow10_le(j as nat, 29);
            lemma_pow10_values();
            assert(pow10((j + 1) as nat) == 10 * pow10(j as nat)) by {
                reveal_with_fuel(pow10, 1);
            }
            assert(pow10(29) * 10 == pow10(30)) by {
                reveal_with_fuel(pow10, 31);
            }
        }
        acc = acc * 10;
        j = j + 1;
    }
    acc
}

} // verus!
