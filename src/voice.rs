//! One sounding note: its key, velocity, start, envelope and lifecycle flags.
//!
//! A voice goes from held (`is_active`, not `is_released`) to released, and
//! from released to retired (`is_active == false`) once its envelope has
//! fallen below [`SILENCE_LEVEL`]; it never goes back.
use vstd::prelude::*;
use crate::envelope::{ADSR, EnvelopeModel, clamp_level};

verus! {

/// Level under which a released voice counts as silent and is retired.
pub const SILENCE_LEVEL: u32 = 1_000;

/// The envelope part of a parameter snapshot: phase lengths in samples and the
/// sustain level as a fraction of [`crate::envelope::LEVEL_ONE`].
#[derive(Clone, Copy, Debug, PartialEq, Eq, Structural)]
pub struct EnvelopeSettings {
    pub attack: u64,
    pub decay: u64,
    pub sustain: u32,
    pub release: u64,
}

/// Samples from `start` to `now`, or 0 if `now` comes first.
pub open spec fn elapsed(start: nat, now: nat) -> nat {
    if now >= start {
        (now - start) as nat
    } else {
        0
    }
}

/// A level as an unbounded number.
pub open spec fn level_of(o: Option<u32>) -> Option<nat> {
    match o {
        Some(l) => Some(l as nat),
        None => None,
    }
}

/// What a voice is, as numbers.
pub struct VoiceModel {
    pub key: u8,
    pub velocity: u8,
    pub start_time: nat,
    pub envelope: EnvelopeModel,
    pub active: bool,
    pub released: bool,
}

impl VoiceModel {
    /// A voice for `key` begun at `now` with the envelope of `settings`.
    pub open spec fn fresh(key: u8, velocity: u8, now: nat, settings: EnvelopeSettings) -> VoiceModel {
        VoiceModel {
            key,
            velocity,
            start_time: now,
            envelope: EnvelopeModel {
                attack: settings.attack as nat,
                decay: settings.decay as nat,
                sustain: clamp_level(settings.sustain as nat),
                release: settings.release as nat,
                start_time: 0,
                release_time: None,
                snapshot: 0,
            },
            active: true,
            released: false,
        }
    }

    /// The envelope level at sample `now`.
    pub open spec fn level_at(self, now: nat) -> nat {
        self.envelope.level_at(elapsed(self.start_time, now))
    }

    /// The voice after a note-off at `now`; a released voice is left as it is.
    pub open spec fn note_off(self, now: nat) -> VoiceModel {
        if self.released {
            self
        } else {
            VoiceModel {
                envelope: self.envelope.stopped(elapsed(self.start_time, now)),
                released: true,
                ..self
            }
        }
    }

    /// Whether the voice is retired at `now`: released and below the silence level.
    pub open spec fn falls_silent(self, now: nat) -> bool {
        &&& self.active
        &&& self.released
        &&& self.level_at(now) < SILENCE_LEVEL
    }

    /// The level the voice sounds at `now`, or `None` if it does not sound.
    pub open spec fn output(self, now: nat) -> Option<nat> {
        if !self.active || self.falls_silent(now) {
            None
        } else {
            Some(self.level_at(now))
        }
    }

    /// The voice after it has been asked for its level at `now`.
    pub open spec fn after_output(self, now: nat) -> VoiceModel {
        if self.falls_silent(now) {
            VoiceModel { active: false, ..self }
        } else {
            self
        }
    }

    /// The voice with the envelope parameters of `settings`, its phase and
    /// release state kept.
    pub open spec fn with_settings(self, settings: EnvelopeSettings) -> VoiceModel {
        VoiceModel {
            envelope: EnvelopeModel {
                attack: settings.attack as nat,
                decay: settings.decay as nat,
                sustain: clamp_level(settings.sustain as nat),
                release: settings.release as nat,
                ..self.envelope
            },
            ..self
        }
    }
}

/// One sounding note.
#[derive(Clone, Copy, Debug)]
pub struct Voice {
    pub key: u8,
    pub velocity: u8,
    /// The sample at which the note began.
    pub start_time: u64,
    pub envelope: ADSR,
    pub is_active: bool,
    pub is_released: bool,
}

impl View for Voice {
    type V = VoiceModel;

    open spec fn view(&self) -> VoiceModel {
        VoiceModel {
            key: self.key,
            velocity: self.velocity,
            start_time: self.start_time as nat,
            envelope: self.envelope@,
            active: self.is_active,
            released: self.is_released,
        }
    }
}

impl Voice {
    /// A held voice for `key`, begun at sample `start_time`.
    pub fn new(key: u8, velocity: u8, start_time: u64, settings: &EnvelopeSettings) -> (r: Voice)
        ensures
            r@ == VoiceModel::fresh(key, velocity, start_time as nat, *settings),
    {
        Voice {
            key,
            velocity,
            start_time,
            envelope: ADSR::new(settings.attack, settings.decay, settings.sustain, settings.release),
            is_active: true,
            is_released: false,
        }
    }

    /// Samples from the voice's start to `now`.
    fn elapsed_at(&self, now: u64) -> (r: u64)
        ensures
            r == elapsed(self.start_time as nat, now as nat),
    {
        if now >= self.start_time {
            now - self.start_time
        } else {
            0
        }
    }

    /// Releases the voice at sample `now`; a second note-off changes nothing.
    pub fn note_off(&mut self, now: u64)
        ensures
            final(self)@ == old(self)@.note_off(now as nat),
    {
        if !self.is_released {
            let t = self.elapsed_at(now);
            self.envelope.stop(t);
            self.is_released = true;
        }
    }

    /// The envelope level at sample `now`, or `None` if the voice does not
    /// sound; a released voice that has fallen silent is retired here.
    pub fn level(&mut self, now: u64) -> (r: Option<u32>)
        ensures
            level_of(r) == old(self)@.output(now as nat),
            final(self)@ == old(self)@.after_output(now as nat),
    {
        if !self.is_active {
            return None;
        }
        let t = self.elapsed_at(now);
        let level = self.envelope.value(t);
        if self.is_released && level < SILENCE_LEVEL {
            self.is_active = false;
            None
        } else {
            Some(level)
        }
    }

    /// Begins the envelope's cycle at the voice's start.
    pub fn start_envelope(&mut self)
        ensures
            final(self)@ == (VoiceModel {
                envelope: EnvelopeModel {
                    start_time: 0,
                    release_time: None,
                    snapshot: 0,
                    ..old(self)@.envelope
                },
                ..old(self)@
            }),
    {
        self.envelope.start(0);
    }

    /// Applies new envelope parameters; they shape the rest of the current phase.
    pub fn set_settings(&mut self, settings: &EnvelopeSettings)
        ensures
            final(self)@ == old(self)@.with_settings(*settings),
    {
        self.envelope.update_attack(settings.attack);
        self.envelope.update_decay(settings.decay);
        self.envelope.update_sustain(settings.sustain);
        self.envelope.update_release(settings.release);
    }
}

} // verus!
