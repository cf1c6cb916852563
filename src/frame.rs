use vstd::prelude::*;

use crate::units::{ChannelCount, SampleRate};

verus! {

/// A batch of interleaved samples, tagged with its channel count and rate.
pub struct Frame<S> {
    pub channels: ChannelCount,
    pub sample_rate: SampleRate,
    pub samples: Vec<S>,
}

impl<S> Frame<S> {
    /// Every channel holds the same number of samples.
    pub open spec fn wf(&self) -> bool {
        &&& self.channels.count() > 0
        &&& self.samples@.len() % (self.channels.count() as nat) == 0
    }

    /// A frame holding a copy of `data`.
    pub fn from_slice(channels: ChannelCount, sample_rate: SampleRate, data: &[S]) -> (r: Frame<S>)
        where S: Copy
        ensures
            r.channels == channels,
            r.sample_rate == sample_rate,
            r.samples@ == data@,
    {
        let mut samples: Vec<S> = Vec::with_capacity(data.len());
        let mut i: usize = 0;
        while i < data.len()
            invariant
                i <= data@.len(),
                samples@ == data@.subrange(0, i as int),
            decreases data@.len() - i,
        {
            samples.push(data[i]);
            i = i + 1;
            assert(samples@ =~= data@.subrange(0, i as int));
        }
        assert(data@.subrange(0, data@.len() as int) =~= data@);
        Frame { channels, sample_rate, samples }
    }

    /// The number of sample instants (samples per channel) in the frame.
    pub open spec fn instants(&self) -> nat {
        self.samples@.len() / (self.channels.count() as nat)
    }
}

/// The first `k` samples of channel `c` in a sequence interleaving `n` channels.
pub open spec fn channel_part<S>(samples: Seq<S>, n: nat, c: nat, k: nat) -> Seq<S> {
    Seq::new(k, |j: int| samples[j * n + c])
}

/// All samples of channel `c` in a sequence interleaving `n` channels.
pub open spec fn deinterleave<S>(samples: Seq<S>, n: nat, c: nat) -> Seq<S> {
    channel_part(samples, n, c, samples.len() / n)
}

/// The last `n` items of `s` (all of them if there are fewer).
pub open spec fn latest<S>(s: Seq<S>, n: nat) -> Seq<S> {
    if s.len() <= n {
        s
    } else {
        s.subrange(s.len() - n, s.len() as int)
    }
}

} // verus!
