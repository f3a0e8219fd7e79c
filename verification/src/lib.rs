//! Core of a live meeting-transcription pipeline: audio samples are
//! accumulated in a streaming buffer, periodically cut into fixed-duration
//! chunks, resampled to the recognition engine's rate, and the engine's
//! per-chunk, chunk-relative timestamps are merged into one globally ordered
//! transcript. Samples are fixed-point amplitudes (`i32`); the unverified
//! shell converts to and from the hardware's floating-point form at the edge.

pub mod arith;
pub mod buffer;
pub mod dsp;
pub mod session;
pub mod transcript;
