use analog_synth::midi::{decode_message, MidiEvent};

#[test]
fn decodes_note_on() {
    assert_eq!(decode_message(&[0x90, 60, 100]), MidiEvent::NoteOn { key: 60, velocity: 100 });
    assert_eq!(decode_message(&[0x93, 61, 1]), MidiEvent::NoteOn { key: 61, velocity: 1 });
}

#[test]
fn decodes_note_off() {
    assert_eq!(decode_message(&[0x80, 60, 64]), MidiEvent::NoteOff { key: 60 });
    assert_eq!(decode_message(&[0x90, 62, 0]), MidiEvent::NoteOff { key: 62 });
    assert_eq!(decode_message(&[0x8F, 63, 0]), MidiEvent::NoteOff { key: 63 });
}

#[test]
fn decodes_control_change() {
    assert_eq!(decode_message(&[0xB0, 74, 127]), MidiEvent::ControlChange { controller: 74, value: 127 });
}

#[test]
fn ignores_other_messages() {
    assert_eq!(decode_message(&[0xE0, 0, 64]), MidiEvent::Other);
    assert_eq!(decode_message(&[0x90, 60]), MidiEvent::Other);
    assert_eq!(decode_message(&[0x90, 60, 100, 0]), MidiEvent::Other);
    assert_eq!(decode_message(&[]), MidiEvent::Other);
}
