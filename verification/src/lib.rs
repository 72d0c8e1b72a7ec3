//! A small polyphonic software synthesizer core.
//!
//! The signal path works in fixed-point arithmetic: one full-scale sample is
//! `fixed::SCALE` units, frequencies are integer millihertz, and envelope
//! times are integer milliseconds.  Every function of the per-sample path is
//! verified: oscillators, the ADSR envelope state machine, the effects chain,
//! the single voice, and the voice manager that mixes voices down to one
//! output sample.

pub mod synth;
