use std::collections::VecDeque;

use vstd::prelude::*;

use crate::frame::{channel_part, deinterleave, latest, Frame};
use crate::units::{ChannelCount, SampleRate};

verus! {

/// Relies on `VecDeque::as_slices`: the two slices hold the deque's
/// contents, in order.
#[verifier::external_body]
fn deque_as_slices<S>(d: &VecDeque<S>) -> (r: (&[S], &[S]))
    ensures
        r.0@ + r.1@ == d@,
{
    d.as_slices()
}

proof fn lemma_latest_push<S>(h: Seq<S>, n: nat, x: S)
    requires
        n > 0,
    ensures
        latest(h, n).len() == n ==> latest(h.push(x), n) == latest(h, n).subrange(1, n as int).push(x),
        latest(h, n).len() < n ==> latest(h.push(x), n) == latest(h, n).push(x),
        latest(h, n).len() <= n,
{
    if latest(h, n).len() == n {
        assert(latest(h.push(x), n) =~= latest(h, n).subrange(1, n as int).push(x));
    } else {
        assert(latest(h.push(x), n) =~= latest(h, n).push(x));
    }
}

proof fn lemma_latest_empty<S>(h: Seq<S>)
    ensures
        latest(h, 0) == Seq::<S>::empty(),
{
    assert(latest(h, 0) =~= Seq::<S>::empty());
}

/// Per-channel ring buffers that de-interleave incoming frames.
///
/// Each channel keeps the most recent `max_len` samples pushed to it;
/// `sample_count` counts every sample instant ever pushed.
pub struct SampleBuffer<S> {
    max_len: usize,
    channels: ChannelCount,
    sample_rate: SampleRate,
    buffers: Vec<VecDeque<S>>,
    sample_count: usize,
    /// Everything ever pushed, per channel.
    history: Ghost<Seq<Seq<S>>>,
}

impl<S: Copy> SampleBuffer<S> {
    pub closed spec fn max_len(&self) -> nat {
        self.max_len as nat
    }

    pub closed spec fn channels(&self) -> ChannelCount {
        self.channels
    }

    pub closed spec fn rate(&self) -> SampleRate {
        self.sample_rate
    }

    /// The number of sample instants pushed so far.
    pub closed spec fn count(&self) -> nat {
        self.sample_count as nat
    }

    /// Every sample ever pushed to channel `c`, oldest first.
    pub closed spec fn history(&self, c: int) -> Seq<S> {
        self.history@[c]
    }

    /// The samples of channel `c` that the ring still holds, oldest first.
    pub closed spec fn ring(&self, c: int) -> Seq<S> {
        self.buffers@[c]@
    }

    /// The number of sample instants the rings hold.
    pub open spec fn retained(&self) -> nat {
        if self.count() <= self.max_len() {
            self.count()
        } else {
            self.max_len()
        }
    }

    /// The sample number of the oldest retained sample instant.
    pub open spec fn oldest(&self) -> nat {
        (self.count() - self.retained()) as nat
    }

    pub closed spec fn wf(&self) -> bool {
        &&& self.buffers@.len() == self.channels.count()
        &&& self.history@.len() == self.channels.count()
        &&& forall|c: int|
            0 <= c < self.buffers@.len() ==> {
                &&& (#[trigger] self.history@[c]).len() == self.sample_count
                &&& self.buffers@[c]@ == latest(self.history@[c], self.max_len as nat)
            }
    }

    pub fn new(channels: ChannelCount, sample_rate: SampleRate, max_len: usize) -> (r: Self)
        ensures
            r.wf(),
            r.channels() == channels,
            r.rate() == sample_rate,
            r.max_len() == max_len,
            r.count() == 0,
            forall|c: int| 0 <= c < channels.count() ==> #[trigger] r.history(c) == Seq::<S>::empty(),
    {
        let n = channels.as_usize();
        let mut buffers: Vec<VecDeque<S>> = Vec::new();
        let mut i: usize = 0;
        while i < n
            invariant
                i <= n,
                buffers@.len() == i,
                forall|c: int| 0 <= c < i ==> (#[trigger] buffers@[c])@ == Seq::<S>::empty(),
            decreases n - i,
        {
            buffers.push(VecDeque::with_capacity(max_len));
            i = i + 1;
        }
        let ghost h = Seq::new(n as nat, |c: int| Seq::<S>::empty());
        proof {
            assert forall|c: int| 0 <= c < n implies buffers@[c]@ == latest(#[trigger] h[c], max_len as nat) by {
                assert(latest(h[c], max_len as nat) =~= Seq::<S>::empty());
            }
        }
        SampleBuffer { max_len, channels, sample_rate, buffers, sample_count: 0, history: Ghost(h) }
    }

    /// De-interleaves the frame's samples onto the channel rings, evicting
    /// the oldest samples of a full ring.
    pub fn push(&mut self, f: &Frame<S>)
        requires
            old(self).wf(),
            f.wf(),
            f.channels == old(self).channels(),
            f.sample_rate == old(self).rate(),
            old(self).count() + f.instants() <= usize::MAX,
        ensures
            final(self).wf(),
            final(self).channels() == old(self).channels(),
            final(self).rate() == old(self).rate(),
            final(self).max_len() == old(self).max_len(),
            final(self).count() == old(self).count() + f.instants(),
            forall|c: int|
                0 <= c < old(self).channels().count() ==> #[trigger] final(self).history(c)
                    == old(self).history(c) + deinterleave(f.samples@, f.channels.count() as nat, c as nat),
    {
        let n = self.channels.as_usize();
        let len = f.samples.len();
        let nf = len / n;
        let ghost h0 = self.history@;
        let ghost samples = f.samples@;
        proof {
            vstd::arithmetic::div_mod::lemma_fundamental_div_mod(len as int, n as int);
            assert(len as int % n as int == 0);
            assert(nf * n == len) by (nonlinear_arith)
                requires
                    len as int == n as int * (len as int / n as int) + len as int % n as int,
                    len as int % n as int == 0,
                    nf == len as int / n as int;
        }
        let mut k: usize = 0;
        while k < nf
            invariant
                0 < n,
                n == self.channels.count(),
                nf * n == len,
                len == samples.len(),
                samples == f.samples@,
                k <= nf,
                self.buffers@.len() == n,
                self.history@.len() == n,
                self.sample_count == old(self).sample_count,
                self.max_len == old(self).max_len,
                self.channels == old(self).channels,
                self.sample_rate == old(self).sample_rate,
                h0 == old(self).history@,
                forall|c: int| 0 <= c < n ==> (#[trigger] self.buffers@[c])@ == latest(self.history@[c], self.max_len as nat),
                forall|c: int| 0 <= c < n ==> #[trigger] self.history@[c] == h0[c] + channel_part(samples, n as nat, c as nat, k as nat),
            decreases nf - k,
        {
            let mut c: usize = 0;
            while c < n
                invariant
                    0 < n,
                    n == self.channels.count(),
                    nf * n == len,
                    len == samples.len(),
                    samples == f.samples@,
                    k < nf,
                    c <= n,
                    self.buffers@.len() == n,
                    self.history@.len() == n,
                    self.sample_count == old(self).sample_count,
                    self.max_len == old(self).max_len,
                    self.channels == old(self).channels,
                    self.sample_rate == old(self).sample_rate,
                    h0 == old(self).history@,
                    forall|c2: int| 0 <= c2 < n ==> (#[trigger] self.buffers@[c2])@ == latest(self.history@[c2], self.max_len as nat),
                    forall|c2: int| 0 <= c2 < c ==> #[trigger] self.history@[c2] == h0[c2] + channel_part(samples, n as nat, c2 as nat, (k + 1) as nat),
                    forall|c2: int| c <= c2 < n ==> #[trigger] self.history@[c2] == h0[c2] + channel_part(samples, n as nat, c2 as nat, k as nat),
                decreases n - c,
            {
                proof {
                    assert(k * n + c < len) by (nonlinear_arith)
                        requires k < nf, c < n, nf * n == len;
                }
                let s = f.samples[k * n + c];
                let ghost hc = self.history@[c as int];
                if self.max_len > 0 {
                    proof {
                        lemma_latest_push(hc, self.max_len as nat, s);
                    }
                    if self.buffers[c].len() == self.max_len {
                        self.buffers[c].pop_front();
                    }
                    self.buffers[c].push_back(s);
                } else {
                    proof {
                        lemma_latest_empty(hc);
                        lemma_latest_empty(hc.push(s));
                    }
                }
                self.history = Ghost(self.history@.update(c as int, hc.push(s)));
                proof {
                    assert(channel_part(samples, n as nat, c as nat, (k + 1) as nat)
                        =~= channel_part(samples, n as nat, c as nat, k as nat).push(s));
                    assert(h0[c as int] + channel_part(samples, n as nat, c as nat, (k + 1) as nat)
                        =~= hc.push(s));
                }
                c = c + 1;
            }
            k = k + 1;
        }
        self.sample_count = self.sample_count + nf;
        proof {
            assert forall|c: int| 0 <= c < n implies #[trigger] self.history@[c].len() == self.sample_count by {
                assert(self.history@[c] == h0[c] + channel_part(samples, n as nat, c as nat, nf as nat));
            }
        }
    }

    /// The number of sample instants held: `min(count, max_len)`.
    pub fn len(&self) -> (r: usize)
        requires
            self.wf(),
        ensures
            r == self.retained(),
    {
        if self.sample_count < self.max_len {
            self.sample_count
        } else {
            self.max_len
        }
    }

    /// The sample number of the oldest sample instant still held.
    pub fn oldest_sample_index(&self) -> (r: usize)
        requires
            self.wf(),
        ensures
            r == self.oldest(),
    {
        self.sample_count - self.len()
    }

    pub fn sample_count(&self) -> (r: usize)
        ensures
            r == self.count(),
    {
        self.sample_count
    }

    pub fn channel_count(&self) -> (r: ChannelCount)
        ensures
            r == self.channels(),
    {
        self.channels
    }

    pub fn sample_rate(&self) -> (r: SampleRate)
        ensures
            r == self.rate(),
    {
        self.sample_rate
    }
}

/// A period buffer's sample buffer is itself well formed.
pub proof fn lemma_period_buffer_wf<S: Copy>(pb: &PeriodBuffer<S>)
    requires
        pb.wf(),
    ensures
        pb.buffer().wf(),
        pb.next_start() >= pb.buffer().oldest(),
{
}

/// Updating a ring the way a push does, dropping its oldest samples to keep
/// at most `n`, gives the last `n` samples of everything pushed: keeping the
/// last `n` of `h` and then of what follows the new samples `x` is the same
/// as keeping the last `n` of `h + x`.
pub proof fn lemma_latest_of_pushes<S>(h: Seq<S>, x: Seq<S>, n: nat)
    ensures
        latest(latest(h, n) + x, n) == latest(h + x, n),
{
    let a = latest(h, n);
    let l = latest(a + x, n);
    let r = latest(h + x, n);
    assert(l.len() == r.len());
    assert forall|i: int| 0 <= i < l.len() implies l[i] == r[i] by {
        let ia = (a + x).len() - l.len() + i;
        let ih = (h + x).len() - r.len() + i;
        if ia < a.len() {
            assert(a[ia] == h[h.len() - a.len() + ia]);
        }
    }
    assert(l =~= r);
}

/// What a ring holds is exactly the most recent `max_len` samples pushed to
/// its channel, in the order they were pushed, however many pushes it took
/// (`as_slices` hands the ring out in order, wrapped or not).
pub proof fn lemma_ring_holds_latest<S: Copy>(b: &SampleBuffer<S>, c: int)
    requires
        b.wf(),
        0 <= c < b.channels().count(),
    ensures
        b.history(c).len() == b.count(),
        b.ring(c) == latest(b.history(c), b.max_len()),
        b.ring(c) == b.history(c).subrange(b.oldest() as int, b.count() as int),
{
    let h = b.history(c);
    assert(h.len() == b.count());
    if h.len() <= b.max_len() {
        assert(h =~= h.subrange(0, h.len() as int));
    }
}

impl<S: Copy> SampleBuffer<S> {
    /// Peeks at the last `n` samples of the more recent segment of channel
    /// `channel`'s ring, or fewer if that segment holds fewer.
    pub fn peek_tail(&self, channel: usize, n: usize) -> (r: &[S])
        requires
            self.wf(),
            channel < self.channels().count(),
        ensures
            r@.len() <= n,
            r@ == self.ring(channel as int).subrange(
                self.ring(channel as int).len() - r@.len(),
                self.ring(channel as int).len() as int,
            ),
            n > 0 && self.ring(channel as int).len() > 0 ==> r@.len() > 0,
    {
        let (a, b) = deque_as_slices(&self.buffers[channel]);
        let ghost ring = self.buffers@[channel as int]@;
        if b.len() == 0 {
            let avail = if a.len() < n { a.len() } else { n };
            proof {
                assert(a@ =~= ring);
            }
            let r = &a[a.len() - avail..a.len()];
            r
        } else {
            let avail = if b.len() < n { b.len() } else { n };
            let r = &b[b.len() - avail..b.len()];
            proof {
                assert(r@ =~= ring.subrange(ring.len() - r@.len(), ring.len() as int));
            }
            r
        }
    }

    /// The two contiguous segments of channel `channel`'s ring, which
    /// together hold the retained samples in order.
    pub fn as_slices(&self, channel: usize) -> (r: (&[S], &[S]))
        requires
            self.wf(),
            channel < self.channels().count(),
        ensures
            r.0@ + r.1@ == self.ring(channel as int),
    {
        deque_as_slices(&self.buffers[channel])
    }
}

/// A window of consecutive sample instants, across all channels of a
/// `SampleBuffer`.
pub struct Period<'a, S> {
    buffer: &'a SampleBuffer<S>,
    start_sample_num: usize,
    len: usize,
}

impl<'a, S: Copy> Period<'a, S> {
    /// The sample number of the first instant of the window.
    pub closed spec fn start(&self) -> nat {
        self.start_sample_num as nat
    }

    pub closed spec fn period_len(&self) -> nat {
        self.len as nat
    }

    pub closed spec fn channels_spec(&self) -> ChannelCount {
        self.buffer.channels()
    }

    pub closed spec fn rate(&self) -> SampleRate {
        self.buffer.rate()
    }

    /// The samples of channel `c` in the window, oldest first.
    pub closed spec fn window(&self, c: int) -> Seq<S> {
        self.buffer.history(c).subrange(self.start_sample_num as int, self.start_sample_num + self.len)
    }

    /// The window is still held by the buffer.
    pub closed spec fn wf(&self) -> bool {
        &&& self.buffer.wf()
        &&& self.buffer.oldest() <= self.start_sample_num
        &&& self.start_sample_num + self.len <= self.buffer.count()
    }

    pub fn channel_count(&self) -> (r: ChannelCount)
        ensures
            r == self.channels_spec(),
    {
        self.buffer.channels
    }

    /// One channel of the window, as one or two contiguous ring segments.
    pub fn get_channel(&self, channel: usize) -> (r: ChannelPeriod<'a, S>)
        requires
            self.wf(),
            channel < self.channels_spec().count(),
        ensures
            r.wf(),
            r.samples() == self.window(channel as int),
            r.samples().len() == self.period_len(),
            r.second().len() > 0 ==> r.first().len() > 0,
            r.len_spec() == self.period_len(),
            r.start() == self.start(),
            r.rate() == self.rate(),
    {
        let buffer: &'a SampleBuffer<S> = self.buffer;
        let (first_segment, second_segment) = deque_as_slices(&buffer.buffers[channel]);
        proof {
            lemma_ring_holds_latest(buffer, channel as int);
        }
        let ghost ring = buffer.ring(channel as int);
        let ghost h = buffer.history(channel as int);
        let ghost s0 = self.start_sample_num as int;
        let ghost old_ix = buffer.oldest() as int;

        // Where the window lies, relative to the start of the first segment:
        let len_to_buffer_end = buffer.sample_count - self.start_sample_num;
        let mut start = buffer.len() - len_to_buffer_end;
        let mut end = start + self.len;
        assert(start == s0 - old_ix);
        assert(end <= ring.len());

        let slices: (&'a [S], &'a [S]) = if start < first_segment.len() {
            if end <= first_segment.len() {
                // Entirely in the first segment.
                (&first_segment[start..end], &second_segment[0..0])
            } else {
                // Split between the two segments.
                let first = &first_segment[start..first_segment.len()];
                start = 0;
                end = end - first_segment.len();
                (first, &second_segment[start..end])
            }
        } else {
            // Entirely in the second segment.
            start = start - first_segment.len();
            end = end - first_segment.len();
            (&second_segment[start..end], &first_segment[0..0])
        };
        proof {
            assert(slices.0@ + slices.1@ =~= ring.subrange(s0 - old_ix, s0 - old_ix + self.len));
            assert(ring.subrange(s0 - old_ix, s0 - old_ix + self.len) =~= h.subrange(s0, s0 + self.len));
        }
        ChannelPeriod {
            slices,
            sample_rate: buffer.sample_rate,
            start_sample_num: self.start_sample_num,
            len: self.len,
        }
    }

    /// Every channel of the window, in channel order.
    pub fn channels(&self) -> (r: Vec<ChannelPeriod<'a, S>>)
        requires
            self.wf(),
        ensures
            r@.len() == self.channels_spec().count(),
            forall|c: int|
                0 <= c < r@.len() ==> {
                    &&& (#[trigger] r@[c]).wf()
                    &&& r@[c].samples() == self.window(c)
                    &&& r@[c].len_spec() == self.period_len()
                    &&& r@[c].start() == self.start()
                    &&& r@[c].rate() == self.rate()
                },
    {
        let n = self.buffer.channels.as_usize();
        let mut r: Vec<ChannelPeriod<'a, S>> = Vec::new();
        let mut c: usize = 0;
        while c < n
            invariant
                self.wf(),
                n == self.channels_spec().count(),
                c <= n,
                r@.len() == c,
                forall|i: int|
                    0 <= i < c ==> {
                        &&& (#[trigger] r@[i]).wf()
                        &&& r@[i].samples() == self.window(i)
                        &&& r@[i].len_spec() == self.period_len()
                        &&& r@[i].start() == self.start()
                        &&& r@[i].rate() == self.rate()
                    },
            decreases n - c,
        {
            r.push(self.get_channel(c));
            c = c + 1;
        }
        r
    }

    pub fn len(&self) -> (r: usize)
        ensures
            r == self.period_len(),
    {
        self.len
    }

    pub fn sample_rate(&self) -> (r: SampleRate)
        ensures
            r == self.rate(),
    {
        self.buffer.sample_rate
    }

    /// The sample number of the window's first instant.
    pub fn start_sample_num(&self) -> (r: usize)
        ensures
            r == self.start(),
    {
        self.start_sample_num
    }

    /// The sample number just past the window's last instant.
    pub fn end_sample_num(&self) -> (r: usize)
        requires
            self.wf(),
        ensures
            r == self.start() + self.period_len(),
    {
        self.start_sample_num + self.len
    }
}

/// One channel of a `Period`: one or two ring segments that, read in
/// order, hold the window's samples oldest first.
pub struct ChannelPeriod<'a, S> {
    slices: (&'a [S], &'a [S]),
    sample_rate: SampleRate,
    start_sample_num: usize,
    len: usize,
}

impl<'a, S: Copy> ChannelPeriod<'a, S> {
    /// The window's samples, oldest first.
    pub open spec fn samples(&self) -> Seq<S> {
        self.first() + self.second()
    }

    /// The earlier of the two segments.
    pub closed spec fn first(&self) -> Seq<S> {
        self.slices.0@
    }

    /// The later of the two segments.
    pub closed spec fn second(&self) -> Seq<S> {
        self.slices.1@
    }

    pub closed spec fn len_spec(&self) -> nat {
        self.len as nat
    }

    pub closed spec fn start(&self) -> nat {
        self.start_sample_num as nat
    }

    pub closed spec fn rate(&self) -> SampleRate {
        self.sample_rate
    }

    pub closed spec fn wf(&self) -> bool {
        &&& self.samples().len() == self.len
        &&& self.start_sample_num + self.len <= usize::MAX
    }

    /// The two segments, earlier samples in the first.
    pub fn slices(&self) -> (r: (&'a [S], &'a [S]))
        ensures
            r.0@ == self.first(),
            r.1@ == self.second(),
    {
        self.slices
    }

    /// The window's samples, oldest first, copied out.
    pub fn iter(&self) -> (r: Vec<S>)
        ensures
            r@ == self.samples(),
    {
        let (a, b) = self.slices;
        let mut r: Vec<S> = Vec::new();
        let mut i: usize = 0;
        while i < a.len()
            invariant
                i <= a@.len(),
                r@ == a@.subrange(0, i as int),
            decreases a@.len() - i,
        {
            r.push(a[i]);
            i = i + 1;
            assert(r@ =~= a@.subrange(0, i as int));
        }
        let mut j: usize = 0;
        while j < b.len()
            invariant
                j <= b@.len(),
                r@ == a@ + b@.subrange(0, j as int),
            decreases b@.len() - j,
        {
            r.push(b[j]);
            j = j + 1;
            assert(r@ =~= a@ + b@.subrange(0, j as int));
        }
        assert(b@.subrange(0, b@.len() as int) =~= b@);
        assert(a@.subrange(0, a@.len() as int) =~= a@);
        r
    }

    pub fn len(&self) -> (r: usize)
        ensures
            r == self.len_spec(),
    {
        self.len
    }

    pub fn sample_rate(&self) -> (r: SampleRate)
        ensures
            r == self.rate(),
    {
        self.sample_rate
    }

    /// The sample number of the window's first instant.
    pub fn start_sample_num(&self) -> (r: usize)
        ensures
            r == self.start(),
    {
        self.start_sample_num
    }

    /// A cursor over the window's samples, each paired with its sample
    /// number.
    pub fn into_timeseries(self) -> (r: TimeseriesIterator<'a, S>)
        requires
            self.wf(),
        ensures
            r.wf(),
            r.period() == self,
            r.position() == 0,
    {
        TimeseriesIterator { period: self, first_slice: true, index: 0 }
    }
}

/// Walks a `ChannelPeriod`'s samples in order, across its two segments.
pub struct TimeseriesIterator<'a, S> {
    period: ChannelPeriod<'a, S>,
    first_slice: bool,
    /// Position within the current segment.
    index: usize,
}

impl<'a, S: Copy> TimeseriesIterator<'a, S> {
    pub closed spec fn period(&self) -> ChannelPeriod<'a, S> {
        self.period
    }

    /// How many samples have been handed out.
    pub closed spec fn position(&self) -> nat {
        if self.first_slice {
            self.index as nat
        } else {
            self.period.slices.0@.len() + self.index as nat
        }
    }

    pub closed spec fn wf(&self) -> bool {
        &&& self.period.wf()
        &&& self.first_slice ==> self.index <= self.period.slices.0@.len()
        &&& !self.first_slice ==> self.index <= self.period.slices.1@.len()
    }

    /// The next sample with its sample number, or `None` past the end.
    pub fn next(&mut self) -> (r: Option<(usize, S)>)
        requires
            old(self).wf(),
        ensures
            final(self).wf(),
            final(self).period() == old(self).period(),
            old(self).position() < old(self).period().samples().len() ==> {
                &&& r == Some(
                    (
                        (old(self).period().start() + old(self).position()) as usize,
                        old(self).period().samples()[old(self).position() as int],
                    ),
                )
                &&& final(self).position() == old(self).position() + 1
            },
            old(self).position() >= old(self).period().samples().len() ==> {
                &&& r is None
                &&& final(self).position() == old(self).position()
            },
    {
        let (first, second) = self.period.slices;
        if self.first_slice && self.index >= first.len() {
            self.first_slice = false;
            self.index = 0;
        }
        let slice = if self.first_slice { first } else { second };
        if self.index < slice.len() {
            let position = if self.first_slice { self.index } else { first.len() + self.index };
            let res = Some((self.period.start_sample_num + position, slice[self.index]));
            self.index = self.index + 1;
            res
        } else {
            None
        }
    }
}

/// Turns pushed frames into a stream of fixed-length periods whose ends
/// advance by a fixed stride (periods overlap when the stride is shorter
/// than the length).
pub struct PeriodBuffer<S> {
    buffer: SampleBuffer<S>,
    period_len: usize,
    period_stride: usize,
    next_period_end: usize,
}

impl<S: Copy> PeriodBuffer<S> {
    pub closed spec fn buffer(&self) -> SampleBuffer<S> {
        self.buffer
    }

    pub closed spec fn period_len(&self) -> nat {
        self.period_len as nat
    }

    pub closed spec fn stride(&self) -> nat {
        self.period_stride as nat
    }

    /// The sample number just past the end of the next period.
    pub closed spec fn next_end(&self) -> nat {
        self.next_period_end as nat
    }

    /// The sample number where the next period starts.
    pub open spec fn next_start(&self) -> int {
        self.next_end() - self.period_len()
    }

    /// The start of the next period is still held by the buffer.
    pub closed spec fn wf(&self) -> bool {
        &&& self.buffer.wf()
        &&& self.period_len <= self.next_period_end
        &&& self.buffer.oldest() <= self.next_period_end - self.period_len
    }

    /// Pushing `n` more sample instants keeps the next period's start in
    /// the buffer.
    pub open spec fn can_take(&self, n: nat) -> bool {
        self.buffer().count() + n <= self.next_start() + self.buffer().max_len()
    }

    /// Periods of `period_len` instants, the first starting at sample 0.
    pub fn new(buffer: SampleBuffer<S>, period_len: usize, period_stride: usize) -> (r: Self)
        requires
            buffer.wf(),
            buffer.count() <= buffer.max_len(),
        ensures
            r.wf(),
            r.buffer() == buffer,
            r.period_len() == period_len,
            r.stride() == period_stride,
            r.next_end() == period_len,
    {
        PeriodBuffer { buffer, period_len, period_stride, next_period_end: period_len }
    }

    /// Whether the frame can be pushed without evicting the start of the
    /// next period.
    pub fn fits(&self, f: &Frame<S>) -> (r: bool)
        requires
            self.wf(),
            f.wf(),
        ensures
            r == self.can_take(f.instants()),
    {
        let n = f.samples.len() / f.channels.as_usize();
        let next_start = self.next_period_end - self.period_len;
        let count = self.buffer.sample_count;
        let max_len = self.buffer.max_len;
        if count >= next_start {
            n <= max_len - (count - next_start)
        } else {
            let gap = next_start - count;
            gap > usize::MAX - max_len || n <= max_len + gap
        }
    }

    /// Pushes a frame into the buffer. The start of the next period must
    /// stay in the buffer (see `fits`).
    pub fn push(&mut self, f: &Frame<S>)
        requires
            old(self).wf(),
            f.wf(),
            f.channels == old(self).buffer().channels(),
            f.sample_rate == old(self).buffer().rate(),
            old(self).buffer().count() + f.instants() <= usize::MAX,
            old(self).can_take(f.instants()),
        ensures
            final(self).wf(),
            final(self).period_len() == old(self).period_len(),
            final(self).stride() == old(self).stride(),
            final(self).next_end() == old(self).next_end(),
            final(self).buffer().channels() == old(self).buffer().channels(),
            final(self).buffer().rate() == old(self).buffer().rate(),
            final(self).buffer().max_len() == old(self).buffer().max_len(),
            final(self).buffer().count() == old(self).buffer().count() + f.instants(),
            forall|c: int|
                0 <= c < old(self).buffer().channels().count() ==> #[trigger] final(self).buffer().history(c)
                    == old(self).buffer().history(c) + deinterleave(f.samples@, f.channels.count() as nat, c as nat),
    {
        self.buffer.push(f);
    }

    /// The buffer the periods are cut from.
    pub fn sample_buffer(&self) -> (r: &SampleBuffer<S>)
        ensures
            *r == self.buffer(),
    {
        &self.buffer
    }

    /// Whether the next period is complete.
    pub fn has_next(&self) -> (r: bool)
        ensures
            r == (self.next_end() <= self.buffer().count()),
    {
        self.next_period_end <= self.buffer.sample_count
    }

    /// The next complete period, if any; taking one advances the stream
    /// by the stride.
    pub fn next(&mut self) -> (r: Option<Period<'_, S>>)
        requires
            old(self).wf(),
        ensures
            final(self).wf(),
            final(self).buffer() == old(self).buffer(),
            final(self).period_len() == old(self).period_len(),
            final(self).stride() == old(self).stride(),
            old(self).next_end() <= old(self).buffer().count() ==> {
                &&& final(self).next_end() == if old(self).next_end() + old(self).stride() <= usize::MAX {
                    old(self).next_end() + old(self).stride()
                } else {
                    usize::MAX as nat
                }
                &&& r matches Some(p) && {
                    &&& p.wf()
                    &&& p.start() == old(self).next_start()
                    &&& p.period_len() == old(self).period_len()
                    &&& p.channels_spec() == old(self).buffer().channels()
                    &&& p.rate() == old(self).buffer().rate()
                    &&& forall|c: int| #[trigger] p.window(c) == old(self).buffer().history(c).subrange(
                        old(self).next_start(),
                        old(self).next_end() as int,
                    )
                }
            },
            old(self).next_end() > old(self).buffer().count() ==> {
                &&& final(self).next_end() == old(self).next_end()
                &&& r is None
            },
    {
        if self.next_period_end <= self.buffer.sample_count {
            let start_sample_num = self.next_period_end - self.period_len;
            self.next_period_end = if self.period_stride <= usize::MAX - self.next_period_end {
                self.next_period_end + self.period_stride
            } else {
                usize::MAX
            };
            Some(Period { buffer: &self.buffer, len: self.period_len, start_sample_num })
        } else {
            None
        }
    }
}

} // verus!
