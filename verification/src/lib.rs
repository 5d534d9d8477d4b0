//! Core of a piano-oriented audio spectrogram analyzer.
//!
//! The crate turns decoded single-channel audio into a row-major
//! time-frequency byte matrix suitable for rendering, and supports
//! per-note energy detection. It holds the decision logic of the
//! pipeline: windowing a sample stream into fixed analysis blocks,
//! selecting a track to decode, classifying container packets,
//! bounding sample accumulation, and laying out and assembling the
//! spectrogram matrix. The floating-point signal arithmetic (window
//! weights, Fourier transform, recursive filters, log compression)
//! is supplied by the caller one analysis row at a time.

pub mod audio;
pub mod config;
pub mod errors;
pub mod overlap_chunks;
pub mod spectrogram;
pub mod window_fn;
