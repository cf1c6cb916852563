use vstd::prelude::*;

verus! {

/// The number of interleaved channels in a stream.
#[derive(PartialEq, Eq, Structural, Clone, Copy, Debug)]
pub struct ChannelCount(u16);

impl ChannelCount {
    pub fn new(c: u16) -> (r: ChannelCount)
        ensures
            r.count() == c,
            r == ChannelCount::with_count(c),
    {
        ChannelCount(c)
    }

    /// The channel count of `c` channels.
    pub closed spec fn with_count(c: u16) -> ChannelCount {
        ChannelCount(c)
    }

    pub closed spec fn count(self) -> u16 {
        self.0
    }

    /// The channel count as an index bound.
    pub fn as_usize(self) -> (r: usize)
        ensures
            r == self.count(),
    {
        self.0 as usize
    }
}

impl From<ChannelCount> for u16 {
    fn from(v: ChannelCount) -> (r: u16) {
        v.0
    }
}

impl vstd::std_specs::convert::FromSpecImpl<ChannelCount> for u16 {
    open spec fn obeys_from_spec() -> bool {
        true
    }

    open spec fn from_spec(v: ChannelCount) -> u16 {
        v.count()
    }
}

impl From<ChannelCount> for usize {
    fn from(v: ChannelCount) -> (r: usize) {
        v.0 as usize
    }
}

impl vstd::std_specs::convert::FromSpecImpl<ChannelCount> for usize {
    open spec fn obeys_from_spec() -> bool {
        true
    }

    open spec fn from_spec(v: ChannelCount) -> usize {
        v.count() as usize
    }
}

/// Samples per second, per channel.
#[derive(PartialEq, Eq, Structural, Clone, Copy, Debug)]
pub struct SampleRate(u32);

impl SampleRate {
    pub fn new(s: u32) -> (r: SampleRate)
        ensures
            r.hz() == s,
            r == SampleRate::with_hz(s),
    {
        SampleRate(s)
    }

    /// The rate of `s` samples per second.
    pub closed spec fn with_hz(s: u32) -> SampleRate {
        SampleRate(s)
    }

    pub closed spec fn hz(self) -> u32 {
        self.0
    }

    /// The rate as a plain count of samples per second.
    pub fn as_usize(self) -> (r: usize)
        ensures
            r == self.hz(),
    {
        self.0 as usize
    }
}

impl From<SampleRate> for u32 {
    fn from(v: SampleRate) -> (r: u32) {
        v.0
    }
}

impl vstd::std_specs::convert::FromSpecImpl<SampleRate> for u32 {
    open spec fn obeys_from_spec() -> bool {
        true
    }

    open spec fn from_spec(v: SampleRate) -> u32 {
        v.hz()
    }
}

impl From<SampleRate> for usize {
    fn from(v: SampleRate) -> (r: usize) {
        v.0 as usize
    }
}

impl vstd::std_specs::convert::FromSpecImpl<SampleRate> for usize {
    open spec fn obeys_from_spec() -> bool {
        true
    }

    open spec fn from_spec(v: SampleRate) -> usize {
        v.hz() as usize
    }
}

} // verus!
