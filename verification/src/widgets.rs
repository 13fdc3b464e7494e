pub mod browser;
pub mod waveform;
