//! The monitor's configuration, loaded once at startup by the host and
//! immutable for the life of the process.

use vstd::prelude::*;

verus! {

use crate::demodulate::GAIN_MAX;

/// Where the presentation layer listens.
pub struct ServerConfig {
    pub host: String,
    pub port: u16,
    pub workers: usize,
}

/// How the capture device is tuned.
pub struct RadioConfig {
    pub device_index: i32,
    pub center_freq: u32,
    pub sample_rate: u32,
    pub tuner_gain: i32,
}

/// Paths the host needs: the transcription model and the data directory.
pub struct MiscConfig {
    pub transcribe_model: String,
    pub data_dir: String,
}

/// One monitored channel: its name, its absolute tuned frequency, its
/// squelch threshold (linear RMS in millionths of full scale) and its audio
/// gain (a multiplier in millionths).
pub struct ChannelConfig {
    pub name: String,
    pub freq: u32,
    pub squelch: i64,
    pub gain: i64,
}

impl ChannelConfig {
    /// The configuration invariant: a non-negative threshold and a gain
    /// within the supported range.
    pub open spec fn wf(self) -> bool {
        &&& 0 <= self.squelch
        &&& 0 <= self.gain <= GAIN_MAX
    }
}

/// The whole configuration.
pub struct Config {
    pub server: ServerConfig,
    pub radio: RadioConfig,
    pub misc: MiscConfig,
    pub channels: Vec<ChannelConfig>,
}

} // verus!
