use k2_viewer::controls::{parse_midi_input, MidiInputAction};

#[test]
fn midi_input_parses_note_on_note_off_and_zero_velocity() {
    assert_eq!(
        parse_midi_input(&[0x92, 64, 100]),
        Some(MidiInputAction::NoteOn { note: 64, velocity: 100, channel: 2 }),
    );
    assert_eq!(
        parse_midi_input(&[0x82, 64, 0]),
        Some(MidiInputAction::NoteOff { note: 64, channel: 2 }),
    );
    assert_eq!(
        parse_midi_input(&[0x92, 64, 0]),
        Some(MidiInputAction::NoteOff { note: 64, channel: 2 }),
    );
}

#[test]
fn midi_input_honors_channel_all_notes_off() {
    assert_eq!(
        parse_midi_input(&[0xB7, 123, 0]),
        Some(MidiInputAction::AllNotesOff { channel: 7 }),
    );
    assert_eq!(parse_midi_input(&[0xB7, 1, 64]), None);
}

#[test]
fn midi_input_ignores_short_and_unrelated_messages() {
    assert_eq!(parse_midi_input(&[]), None);
    assert_eq!(parse_midi_input(&[0x90, 60]), None);
    assert_eq!(parse_midi_input(&[0xC0, 5, 0]), None);
    assert_eq!(
        parse_midi_input(&[0xB3, 120, 0]),
        Some(MidiInputAction::AllNotesOff { channel: 3 }),
    );
    assert_eq!(
        parse_midi_input(&[0x90, 0xFF, 0xFF]),
        Some(MidiInputAction::NoteOn { note: 0x7F, velocity: 0x7F, channel: 0 }),
    );
}
