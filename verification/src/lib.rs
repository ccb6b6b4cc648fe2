//! Core of a software-defined-radio channel monitor.
//!
//! A wideband IQ capture is split into independently tuned narrowband
//! channels; each channel is mixed to baseband, low-pass filtered,
//! FM-discriminated to audio, downsampled, and gated by a squelch threshold
//! that drives a per-channel recording state machine.
//!
//! All signal values are fixed-point integers counted in millionths of full
//! scale, so every stage of the pipeline is exact and verified; the host
//! around this library owns the capture device, the audio files, the
//! transcription engine and the persistence store.

pub mod angle;
pub mod channel;
pub mod color;
pub mod config;
pub mod consts;
pub mod demodulate;
pub mod down_sample;
pub mod fixed;
pub mod low_pass;
pub mod monitor;
pub mod offset;
pub mod recorder;
pub mod sample;
