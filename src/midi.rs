//! Decoding of the three-byte MIDI channel messages the engine reacts to.
use vstd::prelude::*;

verus! {

/// A decoded MIDI message.
#[derive(Debug, Clone, Copy, PartialEq, Eq, Structural)]
pub enum MidiEvent {
    NoteOn { key: u8, velocity: u8 },
    NoteOff { key: u8 },
    ControlChange { controller: u8, value: u8 },
    /// Anything else, ignored by the engine.
    Other,
}

/// The message the bytes `m` carry, on any channel. A note-on with velocity 0
/// is a note-off.
pub open spec fn decoded(m: Seq<u8>) -> MidiEvent {
    if m.len() != 3 {
        MidiEvent::Other
    } else {
        let kind = m[0] / 16;
        if kind == 9 && m[2] > 0 {
            MidiEvent::NoteOn { key: m[1], velocity: m[2] }
        } else if kind == 8 || kind == 9 {
            MidiEvent::NoteOff { key: m[1] }
        } else if kind == 11 {
            MidiEvent::ControlChange { controller: m[1], value: m[2] }
        } else {
            MidiEvent::Other
        }
    }
}

/// Decodes one MIDI message.
pub fn decode_message(message: &[u8]) -> (r: MidiEvent)
    ensures
        r == decoded(message@),
{
    if message.len() != 3 {
        return MidiEvent::Other;
    }
    let kind = message[0] / 16;
    let data1 = message[1];
    let data2 = message[2];
    if kind == 9 && data2 > 0 {
        MidiEvent::NoteOn { key: data1, velocity: data2 }
    } else if kind == 8 || kind == 9 {
        MidiEvent::NoteOff { key: data1 }
    } else if kind == 11 {
        MidiEvent::ControlChange { controller: data1, value: data2 }
    } else {
        MidiEvent::Other
    }
}

} // verus!
