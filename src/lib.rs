//! Real-time audio stream buffering and analysis.
//!
//! Interleaved sample batches are de-interleaved into per-channel rings,
//! re-cut into fixed-length (possibly overlapping) analysis periods, and
//! handed to composable processing steps. Bounded channels carry frames
//! between the device threads and the processing thread.
pub mod accumulator;
pub mod buffer;
pub mod capture;
pub mod channel;
pub mod executor;
pub mod flush;
pub mod frame;
pub mod pipeline;
pub mod playback;
pub mod spectrum;
pub mod units;

pub use accumulator::FrameAccumulator;
pub use buffer::{ChannelPeriod, Period, PeriodBuffer, SampleBuffer, TimeseriesIterator};
pub use frame::Frame;
pub use pipeline::{Chain, Identity, Input, InputError, Output, OutputError, Pipeline, ProcessError, Step};
pub use playback::{FrameReceiver, FrameReceiverError};
pub use units::{ChannelCount, SampleRate};
