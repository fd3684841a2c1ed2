//! Waveform image renderers meant to be used for audio visualization.
//!
//! Raw samples are reduced to per-bin minimum/maximum amplitude pairs once,
//! and images of arbitrary time windows are then rendered from those pairs
//! in time proportional to the output width alone.

pub mod error;

pub mod zero;

pub mod misc;
pub use misc::{Color, Sample, SampleSequence, TimeRange, WaveformConfig};

pub mod binned;
pub use binned::BinnedWaveformRenderer;

pub mod multi;
pub use multi::MultiWaveformRenderer;
