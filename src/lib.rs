//! Engines behind an audio charting tool: a WAV decoder, a waveform reducer
//! that turns decoded samples into a fixed number of amplitude points per
//! channel, and the binary container that holds exported input recordings.

pub mod chart;
pub mod error;
pub mod reduce;
pub mod wav;
pub mod presentation;
