use std::str::FromStr;
use tune::control::{
    parse_key_colors, ControlChangeParameters, KeyColor, KeyboardLayout,
};

#[test]
fn keyboard_layout_from_str() {
    assert!(matches!(KeyboardLayout::from_str("ansi"), Ok(KeyboardLayout::Ansi)));
    assert!(matches!(KeyboardLayout::from_str("var"), Ok(KeyboardLayout::Variant)));
    assert!(matches!(KeyboardLayout::from_str("iso"), Ok(KeyboardLayout::Iso)));
    assert!(KeyboardLayout::from_str("dvorak").is_err());
}

#[test]
fn parse_key_colors_schema() {
    let colors = parse_key_colors("wbwwbwbwbwwb").unwrap();
    assert_eq!(colors.0.len(), 12);
    assert_eq!(colors.0[0], KeyColor::White);
    assert_eq!(colors.0[1], KeyColor::Blue);
    let all = parse_key_colors("wrgbcmyk").unwrap();
    assert_eq!(
        all.0,
        vec![
            KeyColor::White,
            KeyColor::Red,
            KeyColor::Green,
            KeyColor::Blue,
            KeyColor::Cyan,
            KeyColor::Magenta,
            KeyColor::Yellow,
            KeyColor::Black,
        ]
    );
}

#[test]
fn parse_key_colors_rejects_bad_schemas() {
    assert_eq!(
        parse_key_colors("").unwrap_err(),
        "Color schema must not be empty"
    );
    assert_eq!(
        parse_key_colors("wbx").unwrap_err(),
        "Received an invalid character 'x'. Only wrgbcmyk are allowed."
    );
    assert_eq!(
        parse_key_colors("wb\u{e9}").unwrap_err(),
        "Color schema must be ASCII"
    );
}

#[test]
fn control_change_mapping() {
    let params = ControlChangeParameters {
        modulation_ccn: 1,
        breath_ccn: 2,
        foot_ccn: 4,
        volume_ccn: 7,
        balance_ccn: 8,
        pan_ccn: 10,
        expression_ccn: 11,
        damper_ccn: 64,
        sostenuto_ccn: 66,
        soft_ccn: 67,
        legato_ccn: 68,
        sound_1_ccn: 70,
        sound_2_ccn: 71,
        sound_3_ccn: 72,
        sound_4_ccn: 73,
        sound_5_ccn: 74,
        sound_6_ccn: 75,
        sound_7_ccn: 76,
        sound_8_ccn: 77,
        sound_9_ccn: 78,
        sound_10_ccn: 79,
    };
    // The mapper is built without panicking and is reproducible.
    let _mapper = params.to_parameter_mapper();
    let _again = params.to_parameter_mapper();
}
