use tune::ratio::{Ratio, RatioErrorKind};

const CENT: i64 = 0x100000;

#[test]
fn parse_cents() {
    let pr = Ratio::parse("700c").unwrap();
    assert_eq!(pr.ratio.as_fixed(), 700 * CENT);
    assert_eq!(pr.divisions, 1);

    let pr = Ratio::parse("-3.5c").unwrap();
    assert_eq!(pr.ratio.as_fixed(), -(3 * CENT + CENT / 2));

    let pr = Ratio::parse("0c").unwrap();
    assert!(pr.ratio.is_unison());
}

#[test]
fn parse_fraction() {
    let pr = Ratio::parse("3/2").unwrap();
    assert_eq!(pr.ratio.as_fixed(), 736053150);
    // About 701.955 cents.
    assert_eq!(pr.ratio.as_fixed() / CENT, 701);
}

#[test]
fn parse_decimal_matches_fraction() {
    let a = Ratio::parse("1.5").unwrap();
    let b = Ratio::parse("3/2").unwrap();
    assert_eq!(a.ratio, b.ratio);
}

#[test]
fn parse_step_notation() {
    let pr = Ratio::parse("1:12:2").unwrap();
    assert_eq!(pr.ratio.as_fixed(), 100 * CENT);
    assert_eq!(pr.divisions, 12);

    let pr = Ratio::parse("1:7:2").unwrap();
    assert_eq!(pr.ratio.as_fixed(), 179755885);
    assert_eq!(pr.divisions, 7);

    // A fractional step count rounds half-up for the divisions.
    let pr = Ratio::parse("1:15.1:2").unwrap();
    assert_eq!(pr.ratio.as_fixed(), 83330543);
    assert_eq!(pr.divisions, 15);
}

#[test]
fn parse_errors() {
    assert_eq!(Ratio::parse("abc").unwrap_err().kind, RatioErrorKind::Malformed);
    assert_eq!(Ratio::parse("").unwrap_err().kind, RatioErrorKind::Malformed);
    assert_eq!(Ratio::parse("1:0:2").unwrap_err().kind, RatioErrorKind::Malformed);
    assert_eq!(Ratio::parse("3/").unwrap_err().kind, RatioErrorKind::Malformed);
    assert_eq!(Ratio::parse("0").unwrap_err().kind, RatioErrorKind::OutOfRange);
    assert_eq!(Ratio::parse("3/0").unwrap_err().kind, RatioErrorKind::OutOfRange);
    assert_eq!(
        Ratio::parse("99999999999999c").unwrap_err().kind,
        RatioErrorKind::OutOfRange
    );
    assert_eq!(Ratio::parse("ratio\u{e9}").unwrap_err().kind, RatioErrorKind::NotAscii);
    let err = Ratio::parse("x/y").unwrap_err();
    assert_eq!(err.offending, "x/y");
    assert!(err.message().contains("x/y"));
}

#[test]
fn format_round_trip() {
    // Exact whole cents print compactly.
    let r = Ratio::from_cents(700);
    assert_eq!(r.to_text(), "700c");
    // Any value, however awkward, parses back to exactly itself.
    for units in [
        0i64,
        1,
        -1,
        736053150,
        -736053150,
        179755885,
        4194304000000,
        -4194304000000,
        123456789,
    ] {
        let r = Ratio::from_fixed(units);
        let text = r.to_text();
        let back = Ratio::parse(&text).unwrap();
        assert_eq!(back.ratio.as_fixed(), units, "round trip failed for {text}");
        assert_eq!(back.divisions, 1);
    }
}

#[test]
fn interval_arithmetic() {
    let fifth = Ratio::from_fixed(736053150);
    let octave = Ratio::from_cents(1200);
    let fourth = octave.minus(&fifth);
    assert_eq!(fifth.stacked_on(&fourth), octave);
    assert_eq!(fifth.inv().as_fixed(), -736053150);
    assert!(fourth.is_less_than(&fifth));
    assert!(!fifth.is_less_than(&fourth));
}
