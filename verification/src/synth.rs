//! The synthesizer core: fixed-point helpers, oscillators, the ADSR
//! envelope, the effects chain, and the voice manager.

pub mod adsr;
pub mod conf;
pub mod effects;
pub mod fixed;
pub mod oscillators;
pub mod voices;
