use vstd::prelude::*;

verus! {

/// Number of samples in one analysis frame (the FFT length).
pub const FFT_SIZE: usize = 16384;

/// Number of log-spaced frequency rows of the spectrogram.
pub const NUM_BINS: usize = 2400;

/// Number of time columns of the scrolling spectrogram.
pub const SPEC_ROWS: usize = 800;

/// Number of new samples between two analysis frames.
pub const FFT_HOP_SIZE: usize = 512;

/// Number of most recent samples kept for the waveform strip.
pub const WAVEFORM_SAMPLES: usize = 4096;

/// Capacity of the lock-free queue between the capture thread and the UI.
pub const AUDIO_RING_SAMPLES: usize = 65536;

/// Queue backlog above which stale input is discarded.
pub const MAX_AUDIO_BACKLOG: usize = 32768;

/// Largest number of samples taken from the queue in one repaint.
pub const MAX_AUDIO_SAMPLES_PER_FRAME: usize = 8192;

/// Highest harmonic number that gets a label.
pub const MAX_HARMONIC: u32 = 16;

} // verus!
