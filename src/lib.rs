//! A polyphonic analog-modelled synthesis engine: the integer core.
//!
//! Time is counted in samples and envelope levels are fixed-point
//! fractions of [`envelope::LEVEL_ONE`], so every decision the engine makes
//! (envelope phases, voice allocation and stealing, delay-line addressing,
//! display decimation, MIDI decoding) is an exact function of plain values.
pub mod delay_line;
pub mod envelope;
pub mod midi;
pub mod modes;
pub mod voice;
pub mod voice_manager;
pub mod waveform;
