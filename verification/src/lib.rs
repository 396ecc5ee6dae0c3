//! Integer core of a real-time voice harmonics analyser: the sample
//! histories that feed the spectrum analysis, the scrolling spectrogram
//! image, the per-repaint audio pump, and the note/keyboard arithmetic.

pub mod config;
pub mod drone;
pub mod frontend;
pub mod history;
pub mod layout;
pub mod notes;
pub mod waveform;
pub mod waterfall;
