use vstd::prelude::*;

use crate::frame::Frame;
use crate::pipeline::Step;
use crate::units::{ChannelCount, SampleRate};

verus! {

/// Collects interleaved samples, one at a time, into `Frame`s of a fixed
/// length.
pub struct FrameAccumulator<S> {
    channels: ChannelCount,
    sample_rate: SampleRate,
    frame_len: usize,
    samples: Vec<S>,
}

impl<S: Copy> FrameAccumulator<S> {
    /// Small, so that tests can work with small buffers.
    pub const DEFAULT_FRAME_LEN: usize = 16;

    pub closed spec fn channels(&self) -> ChannelCount {
        self.channels
    }

    pub closed spec fn rate(&self) -> SampleRate {
        self.sample_rate
    }

    /// The number of samples in each emitted frame.
    pub closed spec fn frame_len(&self) -> nat {
        self.frame_len as nat
    }

    /// The samples taken since the last emitted frame.
    pub closed spec fn pending(&self) -> Seq<S> {
        self.samples@
    }

    pub fn new(channels: ChannelCount, sample_rate: SampleRate, frame_len: usize) -> (r: Self)
        requires
            channels.count() > 0,
            frame_len as nat % (channels.count() as nat) == 0,
        ensures
            r.channels() == channels,
            r.rate() == sample_rate,
            r.frame_len() == frame_len,
            r.pending() == Seq::<S>::empty(),
    {
        FrameAccumulator { channels, sample_rate, frame_len, samples: Vec::with_capacity(frame_len) }
    }

    /// The same accumulator, emitting frames of `new_len` samples.
    pub fn with_frame_len(self, new_len: usize) -> (r: Self)
        requires
            self.pending().len() == 0,
        ensures
            r.channels() == self.channels(),
            r.rate() == self.rate(),
            r.frame_len() == new_len,
            r.pending() == self.pending(),
    {
        let mut s = self;
        s.frame_len = new_len;
        s.samples.reserve(new_len);
        s
    }
}

impl<S: Copy> Step for FrameAccumulator<S> {
    type Input = S;
    type Output = Frame<S>;

    /// The sample is appended; when that completes a frame, the frame is
    /// emitted and collection starts over.
    open spec fn step_ok(&self, input: S, next: Self, out: Seq<Frame<S>>) -> bool {
        let taken = self.pending().push(input);
        &&& next.channels() == self.channels()
        &&& next.rate() == self.rate()
        &&& next.frame_len() == self.frame_len()
        &&& if taken.len() == self.frame_len() {
            &&& out.len() == 1
            &&& out[0].channels == self.channels()
            &&& out[0].sample_rate == self.rate()
            &&& out[0].samples@ == taken
            &&& next.pending() == Seq::<S>::empty()
        } else {
            &&& out.len() == 0
            &&& next.pending() == taken
        }
    }

    fn process(&mut self, input: S) -> (r: Vec<Frame<S>>) {
        self.samples.push(input);
        let mut r: Vec<Frame<S>> = Vec::new();
        if self.samples.len() == self.frame_len {
            let mut res = Frame {
                channels: self.channels,
                sample_rate: self.sample_rate,
                samples: Vec::with_capacity(self.frame_len),
            };
            std::mem::swap(&mut res.samples, &mut self.samples);
            r.push(res);
        }
        r
    }
}

} // verus!
