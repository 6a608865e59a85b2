use tune::dump::{diff_records, dump_records};
use tune::note::Note;
use tune::pitch::{Pitch, ReferencePitch};
use tune::ratio::Ratio;
use tune::scale::create_equal_temperament_scale;
use tune::tuning::KeyMap;

#[test]
fn dump_7_edo() {
    // 7-EDO rooted at MIDI note 62, dumped over the keys 61 to 63.
    let step = Ratio::parse("1:7:2").unwrap();
    let scale = create_equal_temperament_scale(step).unwrap();
    let key_map = KeyMap::from_reference(ReferencePitch::from_note(Note::from_midi_number(62)));
    let tuning = scale.with_key_map(&key_map);
    let records = dump_records(tuning, 61, 64, 11);
    assert_eq!(records.len(), 3);

    assert_eq!(records[0].midi_number, 61);
    assert_eq!(records[0].scale_degree, -1);
    assert_eq!(records[0].pitch.as_fixed(), -913759085);
    assert_eq!(records[0].approx_note.midi_number(), 60);
    assert_eq!(records[0].approx_deviation.as_fixed(), 29959315);
    // One 7-EDO step below the root is nearest to 9/5 one octave down.
    assert_eq!(records[0].nearest_fraction.numer, 9);
    assert_eq!(records[0].nearest_fraction.denom, 5);
    assert_eq!(records[0].nearest_fraction.num_octaves, -1);

    assert_eq!(records[1].midi_number, 62);
    assert_eq!(records[1].scale_degree, 0);
    assert_eq!(records[1].pitch.as_fixed(), -734003200);
    assert_eq!(records[1].approx_note.midi_number(), 62);
    assert!(records[1].approx_deviation.is_unison());
    assert_eq!(records[1].nearest_fraction.numer, 1);
    assert_eq!(records[1].nearest_fraction.denom, 1);
    assert_eq!(records[1].nearest_fraction.num_octaves, 0);

    assert_eq!(records[2].midi_number, 63);
    assert_eq!(records[2].scale_degree, 1);
    assert_eq!(records[2].pitch.as_fixed(), -554247315);
    assert_eq!(records[2].approx_note.midi_number(), 64);
    assert_eq!(records[2].approx_deviation.as_fixed(), -29959315);
}

#[test]
fn diff_against_31_edo() {
    // Locate two foreign pitches in 31-EDO rooted at MIDI note 60.
    let step = Ratio::parse("1:31:2").unwrap();
    let scale = create_equal_temperament_scale(step).unwrap();
    let key_map = KeyMap::from_reference(ReferencePitch::from_note(Note::from_midi_number(60)));
    let tuning = scale.with_key_map(&key_map);
    let root_pitch = tuning
        .pitch_of(tune::key::PianoKey::from_midi_number(60))
        .as_fixed();
    let step_units = scale.entry(0).as_fixed();

    // The root pitch itself, and a pitch halfway into the ninth step.
    let items = vec![
        (62, 0, Pitch::from_fixed(root_pitch)),
        (63, 1, Pitch::from_fixed(root_pitch + 9 * step_units + step_units / 3)),
    ];
    let records = diff_records(tuning, &items, 11);
    assert_eq!(records.len(), 2);

    assert_eq!(records[0].source_midi, 62);
    assert_eq!(records[0].target_key.midi_number(), 60);
    assert_eq!(records[0].target_index, 0);
    assert!(records[0].deviation.is_unison());

    assert_eq!(records[1].source_midi, 63);
    assert_eq!(records[1].source_degree, 1);
    assert_eq!(records[1].target_key.midi_number(), 69);
    assert_eq!(records[1].target_index, 9);
    assert_eq!(records[1].deviation.as_fixed(), step_units / 3);
}
