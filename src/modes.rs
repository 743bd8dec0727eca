//! The selectors of the signal chain's variants.
use vstd::prelude::*;

verus! {

/// Waveform of an oscillator.
#[derive(Debug, Clone, Copy, PartialEq, Eq, Structural)]
pub enum WaveType {
    Sine,
    Sawtooth,
    Square,
    Triangle,
}

/// Shaping curve of the distortion stage.
#[derive(Debug, Clone, Copy, PartialEq, Eq, Structural)]
pub enum DistortionType {
    /// Bypass: the stage returns its input untouched.
    Clean,
    /// Asymmetric soft clipping.
    Overdrive,
    /// Hard symmetric clipping.
    Distortion,
    /// Heavy asymmetric clipping with compression.
    Fuzz,
    /// Smooth tube-like saturation.
    Tube,
}

/// Character of the shared reverb.
#[derive(Debug, Clone, Copy, PartialEq, Eq, Structural)]
pub enum ReverbType {
    Room,
    Hall,
    Plate,
    Spring,
}

} // verus!
