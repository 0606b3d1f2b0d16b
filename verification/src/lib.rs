//! Detection and muting of DTMF signalling tones in 16-bit PCM audio.
//!
//! The crate works on plain sample buffers. A caller de-interleaves the
//! samples, transforms every full window of every channel into a magnitude
//! spectrum, and hands samples and spectra to the functions here, which decide
//! per window whether a tone is present and silence the windows that hold one.

pub mod detect;
pub mod mute;
pub mod pipeline;
pub mod symbols;
pub mod tones;
pub mod utils;
