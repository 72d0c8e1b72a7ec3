//! Global configuration shared by newly spawned voices.

use vstd::prelude::*;

verus! {

/// The settings a voice manager hands to every voice it creates.
#[derive(Clone, Copy, PartialEq, Eq, Structural)]
pub struct SynthConfig {
    /// Base frequency in millihertz.
    pub base_freq: u64,
    /// Sample rate in hertz.
    pub sample_rate: u64,
}

impl SynthConfig {
    /// A configuration with the given base frequency (millihertz) and
    /// sample rate (hertz).
    pub fn new(base_freq: u64, sample_rate: u64) -> (c: SynthConfig)
        ensures
            c == (SynthConfig { base_freq, sample_rate }),
    {
        SynthConfig { base_freq, sample_rate }
    }
}

impl Default for SynthConfig {
    /// Concert pitch at the customary audio sample rate.
    fn default() -> (c: SynthConfig)
        ensures
            c == (SynthConfig { base_freq: 440_000u64, sample_rate: 44_100u64 }),
    {
        SynthConfig { base_freq: 440_000, sample_rate: 44_100 }
    }
}

} // verus!
