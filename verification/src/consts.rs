//! The capture and audio parameters of the monitor.

use vstd::prelude::*;

verus! {

/// Bytes read from the capture device per iteration; two per sample.
pub const BUFFER_SIZE: usize = 16_384;

/// The wideband capture sample rate in Hz.
pub const SAMPLE_RATE: u32 = 250_000;

/// The cutoff of the channel-isolation low-pass filter, in Hz.
pub const CHANNEL_CUTOFF_FREQ: u32 = 20_000;

/// The cutoff of the audio-band low-pass filter, in Hz.
pub const AUDIO_CUTOFF_FREQ: u32 = 15_000;

/// The default squelch threshold: 0.05 of full scale, in millionths.
pub const SQUELCH: i64 = 50_000;

/// The audio-file sample rate in Hz.
pub const WAVE_SAMPLE_RATE: u32 = 44_100;

/// The sample rate handed to the transcription engine, in Hz.
pub const TRANSCRIBE_SAMPLE_RATE: u32 = 16_000;

} // verus!
