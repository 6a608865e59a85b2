use tune::fraction::{nearest_fraction, OCTAVE_UNITS};
use tune::ratio::{rational_to_units, Ratio};

#[test]
fn fifth_is_three_halves() {
    let fifth = Ratio::parse("3/2").unwrap().ratio;
    let nf = nearest_fraction(fifth, 11);
    assert_eq!((nf.numer, nf.denom, nf.num_octaves), (3, 2, 0));
    assert!(nf.deviation.is_unison());
}

#[test]
fn tempered_fifth_is_three_halves_with_deviation() {
    let nf = nearest_fraction(Ratio::from_cents(700), 11);
    assert_eq!((nf.numer, nf.denom, nf.num_octaves), (3, 2, 0));
    // The tempered fifth is about 1.955 cents short of 3/2.
    assert_eq!(nf.deviation.as_fixed(), -2049950);
}

#[test]
fn octaves_are_factored_out() {
    // Three octaves and a fifth up.
    let r = Ratio::from_fixed(3 * OCTAVE_UNITS + 736053150);
    let nf = nearest_fraction(r, 11);
    assert_eq!((nf.numer, nf.denom, nf.num_octaves), (3, 2, 3));
    // A fifth below the reference: the octave count goes negative.
    let down = Ratio::from_fixed(-736053150);
    let nf = nearest_fraction(down, 11);
    assert_eq!((nf.numer, nf.denom, nf.num_octaves), (4, 3, -1));
}

#[test]
fn unison_and_octave() {
    let nf = nearest_fraction(Ratio::from_cents(0), 11);
    assert_eq!((nf.numer, nf.denom, nf.num_octaves), (1, 1, 0));
    assert!(nf.deviation.is_unison());
    let nf = nearest_fraction(Ratio::from_cents(1199), 11);
    assert_eq!((nf.numer, nf.denom, nf.num_octaves), (1, 1, 1));
    assert_eq!(nf.deviation.as_fixed(), -0x100000);
}

fn gcd(mut a: u64, mut b: u64) -> u64 {
    while b != 0 {
        let t = a % b;
        a = b;
        b = t;
    }
    a
}

#[test]
fn nearest_fraction_beats_every_simpler_fraction() {
    // Brute-force cross-check of the nearest-fraction bound: no fraction
    // within the limit, shifted by any nearby number of octaves,
    // approximates the query more closely.
    let queries = [
        Ratio::from_cents(700),
        Ratio::from_cents(386),
        Ratio::from_cents(151),
        Ratio::from_cents(1100),
        Ratio::parse("3/2").unwrap().ratio,
        Ratio::from_fixed(-1234567),
    ];
    for &q in &queries {
        for limit in 1u16..=11 {
            let nf = nearest_fraction(q, limit);
            assert!(1 <= nf.numer && nf.numer <= limit as u64);
            assert!(1 <= nf.denom && nf.denom <= limit as u64);
            assert_eq!(gcd(nf.numer, nf.denom), 1);
            let best = nf.deviation.as_fixed().abs();
            for p in 1..=limit as u64 {
                for d in 1..=limit as u64 {
                    if p < d || p > 2 * d || gcd(p, d) != 1 {
                        continue;
                    }
                    let units = rational_to_units(p as u128, d as u128).unwrap();
                    for oct in -2i64..=2 {
                        let candidate =
                            (nf.num_octaves as i64 + oct) * OCTAVE_UNITS + units;
                        let dist = (q.as_fixed() - candidate).abs();
                        assert!(
                            best <= dist,
                            "{p}/{d} at {oct} octaves beats the result for limit {limit}"
                        );
                    }
                }
            }
        }
    }
}
