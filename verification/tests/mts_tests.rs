use tune::mts::{
    channel_fine_tuning_message, octave_tuning_message, tuning_bank_change_message,
    tuning_program_change_message, MtsError, SingleNoteTuningChangeMessage,
};
use tune::note::Note;
use tune::pitch::ReferencePitch;
use tune::ratio::Ratio;
use tune::scale::create_equal_temperament_scale;
use tune::tuning::KeyMap;

#[test]
fn mts_of_7_edo() {
    let step = Ratio::parse("1:7:2").unwrap();
    let scale = create_equal_temperament_scale(step).unwrap();
    let key_map = KeyMap::from_reference(ReferencePitch::from_note(Note::from_midi_number(69)));
    let tuning = scale.with_key_map(&key_map);
    let msg = SingleNoteTuningChangeMessage::from_scale(tuning, 0x7f, 0).unwrap();

    let bytes = msg.sysex_bytes();
    assert_eq!(bytes.len(), 393);
    assert_eq!(&bytes[0..7], &[0xf0, 0x7f, 0x7f, 0x08, 0x02, 0x00, 0x7f]);
    assert_eq!(*bytes.last().unwrap(), 0xf7);
    // The reference key is untouched A4; its neighbour is one 7-EDO step up.
    assert_eq!(&bytes[7 + 3 * 69..7 + 3 * 69 + 3], &[69, 0, 0]);
    assert_eq!(&bytes[7 + 3 * 70..7 + 3 * 70 + 3], &[70, 91, 54]);
    // Keys whose semitone leaves the MIDI range are clamped.
    assert_eq!(&bytes[7..10], &[0, 0, 0]);
    assert_eq!(&bytes[7 + 3 * 127..7 + 3 * 127 + 3], &[127, 127, 127]);

    // The checksum is the exclusive-or of device id through last data byte.
    let mut xor = 0u8;
    for &b in &bytes[2..391] {
        xor ^= b;
    }
    assert_eq!(bytes[391], xor);
    assert_eq!(bytes[391], 48);

    assert_eq!(msg.retuned_notes().len(), 75);
    assert_eq!(msg.out_of_range_notes().len(), 53);
    assert_eq!(msg.retuned_notes().len() + msg.out_of_range_notes().len(), 128);
}

#[test]
fn mts_rejects_bad_device_and_program() {
    let step = Ratio::parse("1:7:2").unwrap();
    let scale = create_equal_temperament_scale(step).unwrap();
    let key_map = KeyMap::from_reference(ReferencePitch::from_note(Note::from_midi_number(69)));
    assert_eq!(
        SingleNoteTuningChangeMessage::from_scale(scale.with_key_map(&key_map), 0x80, 0)
            .unwrap_err(),
        MtsError::DeviceIdOutOfRange
    );
    assert_eq!(
        SingleNoteTuningChangeMessage::from_scale(scale.with_key_map(&key_map), 0, 0x80)
            .unwrap_err(),
        MtsError::ProgramOutOfRange
    );
}

#[test]
fn octave_tuning_of_12_edo() {
    // 12-EDO deviates from itself by nothing: every correction is centred.
    let step = Ratio::parse("1:12:2").unwrap();
    let scale = create_equal_temperament_scale(step).unwrap();
    let key_map = KeyMap::from_reference(ReferencePitch::from_note(Note::from_midi_number(62)));
    let msg = octave_tuning_message(scale.with_key_map(&key_map), 22, 3, 3, false).unwrap();
    assert_eq!(msg.len(), 21);
    // Header: realtime sysex, device 22, octave tuning (one byte form),
    // and the bitmap selecting channel 3 only.
    assert_eq!(&msg[0..8], &[0xf0, 0x7f, 22, 0x08, 0x08, 0x00, 0x00, 0x08]);
    for i in 0..12 {
        assert_eq!(msg[8 + i], 64);
    }
    assert_eq!(msg[20], 0xf7);
}

#[test]
fn octave_tuning_of_7_edo_two_byte() {
    let step = Ratio::parse("1:7:2").unwrap();
    let scale = create_equal_temperament_scale(step).unwrap();
    let key_map = KeyMap::from_reference(ReferencePitch::from_note(Note::from_midi_number(62)));
    let msg = octave_tuning_message(scale.with_key_map(&key_map), 22, 0, 15, true).unwrap();
    assert_eq!(msg.len(), 33);
    assert_eq!(&msg[0..8], &[0xf0, 0x7f, 22, 0x08, 0x09, 0x03, 0x7f, 0x7f]);
    // Pitch class zero is the root itself: centred at 8192 = 64 * 128.
    assert_eq!(msg[8], 64);
    assert_eq!(msg[9], 0);
    assert_eq!(msg[32], 0xf7);
}

#[test]
fn octave_tuning_rejects_bad_channels() {
    let step = Ratio::parse("1:12:2").unwrap();
    let scale = create_equal_temperament_scale(step).unwrap();
    let key_map = KeyMap::from_reference(ReferencePitch::from_note(Note::from_midi_number(62)));
    assert_eq!(
        octave_tuning_message(scale.with_key_map(&key_map), 22, 5, 3, false).unwrap_err(),
        MtsError::ChannelOutOfRange
    );
    assert_eq!(
        octave_tuning_message(scale.with_key_map(&key_map), 22, 0, 16, false).unwrap_err(),
        MtsError::ChannelOutOfRange
    );
}

#[test]
fn channel_fine_tuning() {
    // A quarter-tone upward correction: 8192 + 4096.
    let msg = channel_fine_tuning_message(5, Ratio::from_cents(50)).unwrap();
    assert_eq!(msg, vec![0xe5, ((8192 + 4096) % 128) as u8, ((8192 + 4096) / 128) as u8]);
    assert_eq!(
        channel_fine_tuning_message(16, Ratio::from_cents(0)).unwrap_err(),
        MtsError::ChannelOutOfRange
    );
    assert_eq!(
        channel_fine_tuning_message(5, Ratio::from_cents(101)).unwrap_err(),
        MtsError::ValueOutOfRange
    );
}

#[test]
fn tuning_program_change() {
    assert_eq!(tuning_program_change_message(5, 10).unwrap(), vec![0xc5, 10]);
    assert_eq!(
        tuning_program_change_message(16, 10).unwrap_err(),
        MtsError::ChannelOutOfRange
    );
    assert_eq!(
        tuning_program_change_message(5, 128).unwrap_err(),
        MtsError::ProgramOutOfRange
    );
}

#[test]
fn tuning_bank_change() {
    assert_eq!(tuning_bank_change_message(5, 10).unwrap(), vec![0xb5, 0, 10]);
    assert_eq!(
        tuning_bank_change_message(16, 10).unwrap_err(),
        MtsError::ChannelOutOfRange
    );
}

#[test]
fn mts_of_19_edo() {
    // Every 19-EDO key rounds into the MIDI semitone range.
    let step = Ratio::parse("1:19:2").unwrap();
    let scale = create_equal_temperament_scale(step).unwrap();
    let key_map = KeyMap::from_reference(ReferencePitch::from_note(Note::from_midi_number(69)));
    let msg =
        SingleNoteTuningChangeMessage::from_scale(scale.with_key_map(&key_map), 0x7f, 0).unwrap();
    assert_eq!(msg.retuned_notes().len(), 128);
    assert_eq!(msg.out_of_range_notes().len(), 0);
    let bytes = msg.sysex_bytes();
    let mut xor = 0u8;
    for &b in &bytes[2..391] {
        xor ^= b;
    }
    assert_eq!(bytes[391], xor);
}

#[test]
fn octave_tuning_of_31_edo() {
    let step = Ratio::parse("1:31:2").unwrap();
    let scale = create_equal_temperament_scale(step).unwrap();
    let key_map = KeyMap::from_reference(ReferencePitch::from_note(Note::from_midi_number(62)));
    let msg = octave_tuning_message(scale.with_key_map(&key_map), 22, 3, 3, false).unwrap();
    // The first two steps of 31-EDO are 61.3 and 122.6 cents below their
    // twelve-tone counterparts; further steps clamp at the field's floor.
    assert_eq!(msg[8], 64);
    assert_eq!(msg[9], 3);
    assert_eq!(msg[10], 0);
}

#[test]
fn octave_tuning_of_13_edt() {
    // A tritave-based equal division: the step base is three, so the
    // corrections quickly exceed the one-byte field's ceiling.
    let step = Ratio::parse("1:13:3").unwrap();
    assert_eq!(step.ratio.as_fixed(), 153411103);
    assert_eq!(step.divisions, 13);
    let scale = create_equal_temperament_scale(step).unwrap();
    let key_map = KeyMap::from_reference(ReferencePitch::from_note(Note::from_midi_number(62)));
    let msg = octave_tuning_message(scale.with_key_map(&key_map), 22, 3, 3, false).unwrap();
    assert_eq!(msg[8], 64);
    assert_eq!(msg[9], 110);
    assert_eq!(msg[10], 127);
}
