use tune::key::PianoKey;
use tune::note::Note;
use tune::pitch::{Pitch, ReferencePitch, SEMITONE_UNITS};
use tune::ratio::Ratio;
use tune::scale::{
    create_custom_scale, create_equal_temperament_scale, create_harmonics_scale,
    create_rank2_temperament_scale, create_scale, Scale, ScaleCommand, ScaleError,
};
use tune::tuning::KeyMap;

const CENT: i64 = 0x100000;
const OCTAVE: i64 = 1200 * CENT;

#[test]
fn create_7_edo() {
    let step = Ratio::parse("1:7:2").unwrap();
    let scale = create_equal_temperament_scale(step).unwrap();
    assert_eq!(scale.num_entries(), 7);
    // Strictly increasing entries, each one step further up.
    for i in 0..7 {
        assert_eq!(scale.entry(i).as_fixed(), (i as i64 + 1) * 179755885);
    }
    assert_eq!(scale.period().as_fixed(), 7 * 179755885);
}

#[test]
fn crate_custom_scale() {
    // A just-intonation scale given as explicit ratios.
    let items: Vec<Ratio> = ["9/8", "1.25", "4/3", "1.5", "5/3", "15/8", "2"]
        .iter()
        .map(|s| Ratio::parse(s).unwrap().ratio)
        .collect();
    let scale = create_custom_scale(items, "Just intonation".to_string()).unwrap();
    assert_eq!(scale.name(), "Just intonation");
    assert_eq!(scale.num_entries(), 7);
    // Monotonicity: strictly increasing with the octave on top.
    let mut prev = 0;
    for i in 0..7 {
        let e = scale.entry(i).as_fixed();
        assert!(e > prev);
        prev = e;
    }
    assert_eq!(scale.period().as_fixed(), OCTAVE);
}

#[test]
fn custom_scale_errors() {
    let empty: Vec<Ratio> = Vec::new();
    assert_eq!(
        create_custom_scale(empty, "nothing".to_string()).unwrap_err(),
        ScaleError::Empty
    );
    let non_monotonic = vec![Ratio::from_cents(700), Ratio::from_cents(500)];
    assert_eq!(
        create_custom_scale(non_monotonic, "backwards".to_string()).unwrap_err(),
        ScaleError::NonMonotonic
    );
    let negative = vec![Ratio::from_cents(-100)];
    assert_eq!(
        create_custom_scale(negative, "below".to_string()).unwrap_err(),
        ScaleError::OutOfRange
    );
}

#[test]
fn builder_matches_custom() {
    let mut builder = Scale::with_name("pentatonic".to_string());
    for cents in [200, 400, 700, 900, 1200] {
        builder.push_ratio(Ratio::from_cents(cents));
    }
    let scale = builder.build().unwrap();
    assert_eq!(scale.num_entries(), 5);
    assert_eq!(scale.entry(0).as_fixed(), 200 * CENT);
    assert_eq!(scale.period().as_fixed(), OCTAVE);
}

#[test]
fn rank2_temperament() {
    // Two fifths up, one fifth down, octave period: a fragment of
    // Pythagorean tuning.
    let g = Ratio::from_cents(700);
    let p = Ratio::from_cents(1200);
    let scale = create_rank2_temperament_scale(g, 2, 1, p).unwrap();
    assert_eq!(scale.num_entries(), 4);
    assert_eq!(scale.entry(0).as_fixed(), 200 * CENT);
    assert_eq!(scale.entry(1).as_fixed(), 500 * CENT);
    assert_eq!(scale.entry(2).as_fixed(), 700 * CENT);
    assert_eq!(scale.period().as_fixed(), 1200 * CENT);
}

#[test]
fn rank2_degenerate_case() {
    let g = Ratio::from_cents(700);
    let p = Ratio::from_cents(1200);
    let scale = create_rank2_temperament_scale(g, 0, 0, p).unwrap();
    assert_eq!(scale.num_entries(), 1);
    assert_eq!(scale.period().as_fixed(), 1200 * CENT);
}

#[test]
fn rank2_rejects_duplicates() {
    // A generator equal to the period collapses onto the root.
    let g = Ratio::from_cents(1200);
    let p = Ratio::from_cents(1200);
    assert!(create_rank2_temperament_scale(g, 1, 0, p).is_err());
    // Stacking 600 cents twice hits the root again.
    let g = Ratio::from_cents(600);
    assert!(create_rank2_temperament_scale(g, 2, 0, p).is_err());
}

#[test]
fn harmonics_scale() {
    let scale = create_harmonics_scale(8, 8, false).unwrap();
    assert_eq!(scale.num_entries(), 8);
    // The last harmonic, 16/8, is the exact octave.
    assert_eq!(scale.period().as_fixed(), OCTAVE);
    let mut prev = 0;
    for i in 0..8 {
        let e = scale.entry(i).as_fixed();
        assert!(e > prev);
        prev = e;
    }
    // 9/8 is about 203.91 cents.
    assert_eq!(scale.entry(0).as_fixed() / CENT, 203);

    let sub = create_harmonics_scale(8, 8, true).unwrap();
    assert_eq!(sub.num_entries(), 8);
    assert_eq!(sub.period().as_fixed(), OCTAVE);
    // The first subharmonic step is 16/15, about 111.73 cents.
    assert_eq!(sub.entry(0).as_fixed() / CENT, 111);
}

#[test]
fn pitch_of_is_periodic() {
    // The periodicity law on concrete values: one scale length up
    // multiplies the pitch by exactly the period.
    let step = Ratio::parse("1:7:2").unwrap();
    let scale = create_equal_temperament_scale(step).unwrap();
    let key_map = KeyMap::from_reference(ReferencePitch::from_note(Note::from_midi_number(69)));
    let tuning = scale.with_key_map(&key_map);
    let period = scale.period().as_fixed();
    for k in [0i32, 31, 62, 69, 100] {
        let here = tuning.pitch_of(PianoKey::from_midi_number(k)).as_fixed();
        let next = tuning.pitch_of(PianoKey::from_midi_number(k + 7)).as_fixed();
        assert_eq!(next, here + period);
    }
}

#[test]
fn dump_7_edo_with_root() {
    // A separate root note shifts degree zero away from the reference.
    let step = Ratio::parse("1:7:2").unwrap();
    let scale = create_equal_temperament_scale(step).unwrap();
    let ref_pitch = ReferencePitch::from_str("62").unwrap();
    let key_map = KeyMap {
        ref_pitch,
        root_key: PianoKey::from_midi_number(60),
    };
    assert!(key_map.is_well_formed());
    let tuning = scale.with_key_map(&key_map);
    // The reference key still sounds at the reference pitch.
    assert_eq!(
        tuning.pitch_of(PianoKey::from_midi_number(62)).as_fixed(),
        ref_pitch.pitch().as_fixed()
    );
    // The root is two 7-EDO steps below the reference.
    assert_eq!(
        tuning.pitch_of(PianoKey::from_midi_number(60)).as_fixed(),
        ref_pitch.pitch().as_fixed() - 2 * 179755885
    );
}

#[test]
fn find_by_pitch_inverts_pitch_of() {
    let step = Ratio::parse("1:7:2").unwrap();
    let scale = create_equal_temperament_scale(step).unwrap();
    let key_map = KeyMap::from_reference(ReferencePitch::from_note(Note::from_midi_number(62)));
    let tuning = scale.with_key_map(&key_map);
    for k in [0i32, 35, 61, 62, 63, 100, 127] {
        let pitch = tuning.pitch_of(PianoKey::from_midi_number(k));
        let found = tuning.find_by_pitch(pitch);
        assert_eq!(found.approx_value.midi_number(), k);
        assert!(found.deviation.is_unison());
    }
}

#[test]
fn find_by_pitch_prefers_lower_key_on_tie() {
    // A 100-cent single-step scale: keys sit at whole semitones, and a
    // pitch exactly between two keys resolves to the lower one.
    let mut builder = Scale::with_name("semitones".to_string());
    builder.push_ratio(Ratio::from_cents(100));
    let scale = builder.build().unwrap();
    let key_map = KeyMap::from_reference(ReferencePitch::from_note(Note::from_midi_number(69)));
    let tuning = scale.with_key_map(&key_map);
    let midway = Pitch::from_fixed(SEMITONE_UNITS / 2);
    let found = tuning.find_by_pitch(midway);
    assert_eq!(found.approx_value.midi_number(), 69);
    assert_eq!(found.deviation.as_fixed(), SEMITONE_UNITS / 2);
}

#[test]
fn reference_pitch_forms() {
    let r = ReferencePitch::from_str("69").unwrap();
    assert_eq!(r.key().midi_number(), 69);
    assert_eq!(r.pitch().as_fixed(), 0);

    let r = ReferencePitch::from_str("69@440Hz").unwrap();
    assert_eq!(r.key().midi_number(), 69);
    assert_eq!(r.pitch().as_fixed(), 0);

    let r = ReferencePitch::from_str("62").unwrap();
    assert_eq!(r.pitch().as_fixed(), (62 - 69) * SEMITONE_UNITS);

    let r = ReferencePitch::from_str("69+100c").unwrap();
    assert_eq!(r.pitch().as_fixed(), SEMITONE_UNITS);

    let r = ReferencePitch::from_str("69-100c").unwrap();
    assert_eq!(r.pitch().as_fixed(), -SEMITONE_UNITS);

    assert!(ReferencePitch::from_str("").is_err());
    assert!(ReferencePitch::from_str("x@440Hz").is_err());
    assert!(ReferencePitch::from_str("69@440").is_err());
}

#[test]
fn note_names() {
    assert_eq!(Note::from_midi_number(69).name(), "A4");
    assert_eq!(Note::from_midi_number(60).name(), "C4");
    assert_eq!(Note::from_midi_number(61).name(), "C#4");
    assert_eq!(Note::from_midi_number(0).name(), "C-1");
}

#[test]
fn create_quarter_comma_rank2() {
    // A meantone-like rank-2 temperament: three upward and three downward
    // stacks of a quarter-comma fifth (one step of a four-step division of
    // five), reduced into the octave.
    let generator = Ratio::parse("1:4:5").unwrap().ratio;
    assert_eq!(generator.as_fixed(), 730415418);
    let scale =
        create_rank2_temperament_scale(generator, 3, 3, Ratio::from_cents(1200)).unwrap();
    assert_eq!(scale.num_entries(), 7);
    let expected = [
        202539636i64,
        325336146,
        527875782,
        730415418,
        932955054,
        1055751564,
        OCTAVE,
    ];
    for (i, &e) in expected.iter().enumerate() {
        assert_eq!(scale.entry(i).as_fixed(), e);
    }
}

#[test]
fn create_scale_dispatches_commands() {
    let step = Ratio::parse("1:7:2").unwrap();
    let by_command =
        create_scale(ScaleCommand::EqualTemperament { step_size: step }).unwrap();
    let directly = create_equal_temperament_scale(step).unwrap();
    assert_eq!(by_command.num_entries(), directly.num_entries());
    for i in 0..directly.num_entries() {
        assert_eq!(by_command.entry(i), directly.entry(i));
    }

    let custom = create_scale(ScaleCommand::Custom {
        items: vec![Ratio::from_cents(700), Ratio::from_cents(1200)],
        name: "fifth and octave".to_string(),
    })
    .unwrap();
    assert_eq!(custom.name(), "fifth and octave");
    assert_eq!(custom.num_entries(), 2);
}

#[test]
fn key_map_with_optional_root() {
    let ref_pitch = ReferencePitch::from_note(Note::from_midi_number(62));
    let rooted = KeyMap::from_reference_and_root(ref_pitch, Some(60));
    assert_eq!(rooted.root_key.midi_number(), 60);
    assert_eq!(rooted.ref_pitch.key().midi_number(), 62);
    let unrooted = KeyMap::from_reference_and_root(ref_pitch, None);
    assert_eq!(unrooted.root_key.midi_number(), 62);
}

#[test]
fn harmonics_rejects_bad_inputs() {
    assert!(create_harmonics_scale(0, 8, false).is_err());
    assert!(create_harmonics_scale(8, 0, false).is_err());
    // The 65536th harmonic over the fundamental leaves the kernel's range.
    assert_eq!(
        create_harmonics_scale(1, 65535, false).unwrap_err(),
        ScaleError::OutOfRange
    );
}

#[test]
fn error_messages() {
    assert_eq!(
        create_custom_scale(Vec::new(), "nothing".to_string())
            .unwrap_err()
            .message(),
        "scale must not be empty"
    );
    let err = Ratio::parse("x/y").unwrap_err();
    assert_eq!(err.message(), "invalid ratio: 'x/y'");
    let err = Ratio::parse("99999999999999c").unwrap_err();
    assert_eq!(err.message(), "ratio out of range: '99999999999999c'");
}
