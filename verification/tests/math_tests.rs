use tune::math::{floor_div, floor_mod, log2_fixed};
use tune::pitch::Pitch;

#[test]
fn floor_division_rounds_down() {
    assert_eq!(floor_div(7, 2), 3);
    assert_eq!(floor_div(-7, 2), -4);
    assert_eq!(floor_mod(7, 2), 1);
    assert_eq!(floor_mod(-7, 2), 1);
    assert_eq!(floor_div(-6, 3), -2);
    assert_eq!(floor_mod(-6, 3), 0);
}

#[test]
fn log2_fixed_values() {
    // Powers of two are exact.
    assert_eq!(log2_fixed(2, 1), 1 << 24);
    assert_eq!(log2_fixed(8, 1), 3 << 24);
    assert_eq!(log2_fixed(1, 1), 0);
    // log2(3/2) = 0.58496..., within the proved bracket of two units.
    let r = log2_fixed(3, 2);
    let expected = 9814042u64;
    assert!(expected - 1 <= r && r <= expected);
    // The same value arrives through an unreduced fraction.
    assert_eq!(log2_fixed(15, 10), log2_fixed(3, 2));
}

#[test]
fn pitch_parse() {
    assert_eq!(Pitch::parse("440Hz").unwrap().as_fixed(), 0);
    assert_eq!(Pitch::parse("880Hz").unwrap().as_fixed(), 1258291200);
    assert_eq!(Pitch::parse("220hz").unwrap().as_fixed(), -1258291200);
    // The prefix accepts the full ratio grammar, not just decimals.
    assert_eq!(Pitch::parse("3/2Hz").unwrap().as_fixed(), -10313454450);
    assert_eq!(Pitch::parse("700cHz").unwrap().as_fixed(), -10315504400);
    assert!(Pitch::parse("440").is_err());
    assert!(Pitch::parse("Hz").is_err());
    assert!(Pitch::parse("x/yHz").is_err());
}
