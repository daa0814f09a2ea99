//! Tempo and key analysis of decoded audio.
//!
//! The library works on exact integers: time is counted in frames and
//! microseconds, spectral magnitudes are quantized to unsigned integers, and
//! tempo is reported in thousandths of a beat per minute. Decoding audio and
//! running the Fourier transform happen outside; this crate decides what is
//! done with their results.
pub mod error;
pub mod config;
pub mod spectrogram;
pub mod beats;
pub mod bpm;
pub mod chroma;
pub mod key;
pub mod pipeline;
pub mod services;
pub mod api;
pub mod catalog;
