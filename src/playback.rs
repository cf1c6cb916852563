use async_channel::Receiver;

use vstd::prelude::*;

use crate::channel::{try_recv, Polled};
use crate::frame::Frame;
use crate::units::{ChannelCount, SampleRate};

verus! {

pub open spec fn min(a: int, b: int) -> int {
    if a < b {
        a
    } else {
        b
    }
}

/// Why a playback buffer could not be filled further.
#[derive(Debug, PartialEq, Eq, Structural, Clone, Copy)]
pub enum FrameReceiverError {
    /// The sending side has closed the channel and everything queued has
    /// been played.
    EndOfStream,
    /// A queued frame does not have the receiver's channel count or rate.
    FormatMismatch,
}

/// Copies samples out of queued `Frame`s into the buffers that a playback
/// device asks to have filled, keeping at most one partly played frame.
#[verifier::reject_recursive_types(S)]
pub struct FrameReceiver<S> {
    channels: ChannelCount,
    sample_rate: SampleRate,
    receiver: Receiver<Frame<S>>,
    cur_frame: Option<Frame<S>>,
    /// `Some` exactly when samples of `cur_frame` remain to be played.
    cur_sample: Option<usize>,
    /// Every sample of every frame taken from the channel, in order.
    received: Ghost<Seq<S>>,
    /// How many of `received` have been handed out.
    consumed: Ghost<nat>,
}

impl<S: Copy> FrameReceiver<S> {
    pub closed spec fn channels(&self) -> ChannelCount {
        self.channels
    }

    pub closed spec fn rate(&self) -> SampleRate {
        self.sample_rate
    }

    /// Every sample taken from the channel so far, in order.
    pub closed spec fn received(&self) -> Seq<S> {
        self.received@
    }

    /// How many of the received samples have been handed out.
    pub closed spec fn consumed(&self) -> nat {
        self.consumed@
    }

    /// The samples received but not yet handed out.
    pub open spec fn pending(&self) -> Seq<S> {
        self.received().subrange(self.consumed() as int, self.received().len() as int)
    }

    pub closed spec fn wf(&self) -> bool {
        &&& self.consumed@ <= self.received@.len()
        &&& match self.cur_sample {
            Some(k) => {
                &&& self.cur_frame is Some
                &&& k < self.cur_frame->0.samples@.len()
                &&& self.pending() == self.cur_frame->0.samples@.subrange(
                    k as int,
                    self.cur_frame->0.samples@.len() as int,
                )
            },
            None => self.consumed@ == self.received@.len(),
        }
    }

    pub fn new(channels: ChannelCount, sample_rate: SampleRate, receiver: Receiver<Frame<S>>) -> (r: Self)
        ensures
            r.wf(),
            r.channels() == channels,
            r.rate() == sample_rate,
            r.received() == Seq::<S>::empty(),
            r.consumed() == 0,
    {
        FrameReceiver {
            channels,
            sample_rate,
            receiver,
            cur_frame: None,
            cur_sample: None,
            received: Ghost(Seq::empty()),
            consumed: Ghost(0),
        }
    }

    /// Fills `buf` from the front with the next samples: first what remains
    /// of the current frame, then queued frames in order. Stops early, and
    /// reports how many samples were written, when no further frame is
    /// queued; an empty frame counts as none queued. When what remains of
    /// the current frame covers `buf`, nothing is received and `buf` is
    /// filled.
    pub fn fill_buffer(&mut self, buf: &mut [S]) -> (r: Result<usize, FrameReceiverError>)
        requires
            old(self).wf(),
        ensures
            final(self).wf(),
            final(self).channels() == old(self).channels(),
            final(self).rate() == old(self).rate(),
            old(self).received().is_prefix_of(final(self).received()),
            old(self).consumed() <= final(self).consumed() <= old(self).consumed() + old(buf)@.len(),
            final(buf)@.len() == old(buf)@.len(),
            final(buf)@.subrange(0, final(self).consumed() - old(self).consumed())
                == final(self).received().subrange(old(self).consumed() as int, final(self).consumed() as int),
            final(buf)@.subrange(final(self).consumed() - old(self).consumed(), old(buf)@.len() as int)
                == old(buf)@.subrange(final(self).consumed() - old(self).consumed(), old(buf)@.len() as int),
            r matches Ok(n) ==> {
                &&& n == final(self).consumed() - old(self).consumed()
                &&& n < old(buf)@.len() ==> final(self).pending().len() == 0
            },
            r is Err ==> final(self).pending().len() == 0,
            old(self).pending().len() >= old(buf)@.len() ==> {
                &&& r == Ok::<usize, FrameReceiverError>(old(buf)@.len() as usize)
                &&& final(self).received() == old(self).received()
            },
    {
        let blen = buf.len();
        let mut satisfied: usize = 0;
        let ghost c0 = self.consumed@;
        let ghost b0 = buf@;
        while satisfied < buf.len()
            invariant
                self.wf(),
                self.channels == old(self).channels,
                self.sample_rate == old(self).sample_rate,
                old(self).received@.is_prefix_of(self.received@),
                c0 == old(self).consumed@,
                b0 == old(buf)@,
                buf@.len() == b0.len(),
                blen == b0.len(),
                satisfied <= buf@.len(),
                self.consumed@ == c0 + satisfied,
                buf@.subrange(0, satisfied as int) == self.received@.subrange(c0 as int, self.consumed@ as int),
                buf@.subrange(satisfied as int, b0.len() as int) == b0.subrange(satisfied as int, b0.len() as int),
                old(self).pending().len() >= b0.len() ==> {
                    &&& self.received@ == old(self).received@
                    &&& self.pending().len() + satisfied >= b0.len()
                },
            decreases buf@.len() - satisfied,
        {
            let ghost recv_before = self.received@;
            match self.next_slice(buf.len() - satisfied) {
                Ok(Some(slice)) => {
                    let ghost before = buf@;
                    let ghost sv = slice@;
                    let n = slice.len();
                    let mut j: usize = 0;
                    while j < slice.len()
                        invariant
                            j <= slice@.len(),
                            n == slice@.len(),
                            blen == buf@.len(),
                            satisfied + slice@.len() <= buf@.len(),
                            buf@.len() == before.len(),
                            buf@.subrange(0, satisfied as int) == before.subrange(0, satisfied as int),
                            buf@.subrange(satisfied as int, satisfied + j) == slice@.subrange(0, j as int),
                            buf@.subrange(satisfied + slice@.len(), buf@.len() as int)
                                == before.subrange(satisfied + slice@.len(), before.len() as int),
                        decreases slice@.len() - j,
                    {
                        buf[satisfied + j] = slice[j];
                        proof {
                            assert(buf@.subrange(0, satisfied as int) =~= before.subrange(0, satisfied as int));
                            assert(buf@.subrange(satisfied as int, satisfied + j + 1) =~= slice@.subrange(0, j + 1));
                            assert(buf@.subrange(satisfied + slice@.len(), buf@.len() as int)
                                =~= before.subrange(satisfied + slice@.len(), before.len() as int));
                        }
                        j = j + 1;
                    }
                    proof {
                        let s2 = (satisfied + n) as int;
                        assert(sv.subrange(0, n as int) =~= sv);
                        assert(buf@.subrange(0, s2) =~= buf@.subrange(0, satisfied as int) + buf@.subrange(satisfied as int, s2));
                        assert(self.received@.subrange(c0 as int, self.consumed@ as int) =~=
                            recv_before.subrange(c0 as int, c0 + satisfied) + sv);
                        assert forall|i: int| s2 <= i < b0.len() implies buf@[i] == b0[i] by {
                            assert(buf@[i] == buf@.subrange(s2, buf@.len() as int)[i - s2]);
                            assert(before[i] == before.subrange(satisfied as int, b0.len() as int)[i - satisfied]);
                        }
                        assert(buf@.subrange(s2, b0.len() as int) =~= b0.subrange(s2, b0.len() as int));
                    }
                    satisfied = satisfied + n;
                },
                Ok(None) => {
                    return Ok(satisfied);
                },
                Err(e) => {
                    return Err(e);
                },
            }
        }
        Ok(satisfied)
    }

    /// The next available samples: `min(max_len, r)` of them, where `r` is
    /// what remains of the current frame, or of the next queued frame when
    /// the current one has been played; `None` when no frame is queued now.
    pub fn next_slice(&mut self, max_len: usize) -> (r: Result<Option<&[S]>, FrameReceiverError>)
        requires
            old(self).wf(),
            max_len > 0,
        ensures
            final(self).wf(),
            final(self).channels() == old(self).channels(),
            final(self).rate() == old(self).rate(),
            old(self).received().is_prefix_of(final(self).received()),
            old(self).pending().len() > 0 ==> {
                &&& final(self).received() == old(self).received()
                &&& r is Ok
                &&& r->Ok_0 is Some
            },
            match r {
                Ok(Some(s)) => {
                    &&& s@.len() == min(max_len as int, final(self).received().len() - old(self).consumed())
                    &&& 0 < s@.len()
                    &&& final(self).consumed() == old(self).consumed() + s@.len()
                    &&& s@ == final(self).received().subrange(
                        old(self).consumed() as int,
                        final(self).consumed() as int,
                    )
                },
                Ok(None) => {
                    &&& final(self).consumed() == old(self).consumed()
                    &&& final(self).pending().len() == 0
                },
                Err(_) => {
                    &&& old(self).pending().len() == 0
                    &&& final(self).consumed() == old(self).consumed()
                    &&& final(self).pending().len() == 0
                },
            },
    {
        match self.cur_sample {
            Some(cur_sample) => {
                // Some of the current frame remains.
                Ok(Some(self.next_slice_from_current(cur_sample, max_len)))
            },
            None => {
                // The previous frame has been played in full; try the next.
                let polled = try_recv(&self.receiver);
                self.take_polled(polled, max_len)
            },
        }
    }

    /// Takes what a non-blocking receive found, once the current frame has
    /// been played in full: a frame of another format is refused, an empty
    /// frame counts as none, and otherwise the frame becomes current and
    /// its first samples are handed out.
    pub fn take_polled(&mut self, p: Polled<Frame<S>>, max_len: usize) -> (r: Result<Option<&[S]>, FrameReceiverError>)
        requires
            old(self).wf(),
            old(self).pending().len() == 0,
            max_len > 0,
        ensures
            final(self).wf(),
            final(self).channels() == old(self).channels(),
            final(self).rate() == old(self).rate(),
            match p {
                Polled::Ready(f) => if f.channels != old(self).channels() || f.sample_rate != old(self).rate() {
                    &&& r == Err::<Option<&[S]>, FrameReceiverError>(FrameReceiverError::FormatMismatch)
                    &&& final(self).received() == old(self).received()
                    &&& final(self).consumed() == old(self).consumed()
                } else if f.samples@.len() == 0 {
                    &&& r == Ok::<Option<&[S]>, FrameReceiverError>(None)
                    &&& final(self).received() == old(self).received()
                    &&& final(self).consumed() == old(self).consumed()
                } else {
                    &&& final(self).received() == old(self).received() + f.samples@
                    &&& r matches Ok(Some(s)) && {
                        &&& s@ == f.samples@.subrange(0, min(max_len as int, f.samples@.len() as int))
                        &&& final(self).consumed() == old(self).consumed() + s@.len()
                    }
                },
                Polled::Empty => {
                    &&& r == Ok::<Option<&[S]>, FrameReceiverError>(None)
                    &&& final(self).received() == old(self).received()
                    &&& final(self).consumed() == old(self).consumed()
                },
                Polled::Closed => {
                    &&& r == Err::<Option<&[S]>, FrameReceiverError>(FrameReceiverError::EndOfStream)
                    &&& final(self).received() == old(self).received()
                    &&& final(self).consumed() == old(self).consumed()
                },
            },
    {
        match p {
            Polled::Ready(next) => {
                if next.channels != self.channels || next.sample_rate != self.sample_rate {
                    return Err(FrameReceiverError::FormatMismatch);
                }
                if next.samples.len() == 0 {
                    return Ok(None);
                }
                let ghost got = next.samples@;
                self.received = Ghost(self.received@ + got);
                self.cur_frame = Some(next);
                self.cur_sample = Some(0);
                assert(self.pending() =~= got);
                assert(got.subrange(0, got.len() as int) =~= got);
                let s = self.next_slice_from_current(0, max_len);
                assert(s@ =~= got.subrange(0, s@.len() as int));
                Ok(Some(s))
            },
            Polled::Empty => Ok(None),
            Polled::Closed => Err(FrameReceiverError::EndOfStream),
        }
    }

    /// Hands out up to `max_len` samples of the current frame from
    /// `cur_sample` on, and records how far the frame has been played.
    fn next_slice_from_current(&mut self, cur_sample: usize, max_len: usize) -> (r: &[S])
        requires
            old(self).wf(),
            old(self).cur_sample == Some(cur_sample),
            max_len > 0,
        ensures
            final(self).wf(),
            final(self).channels == old(self).channels,
            final(self).sample_rate == old(self).sample_rate,
            final(self).received == old(self).received,
            0 < r@.len() <= max_len,
            r@.len() == min(max_len as int, old(self).pending().len() as int),
            final(self).consumed() == old(self).consumed() + r@.len(),
            r@ == old(self).received().subrange(old(self).consumed() as int, final(self).consumed() as int),
    {
        let frame = self.cur_frame.as_ref().unwrap();
        let len = frame.samples.len();
        let start = cur_sample;
        let end = if max_len < len - start { start + max_len } else { len };
        if end < len {
            self.cur_sample = Some(end);
        } else {
            self.cur_sample = None;
        }
        self.consumed = Ghost(self.consumed@ + (end - start) as nat);
        let r = &frame.samples[start..end];
        proof {
            let p = old(self).pending();
            let fs = frame.samples@;
            let c = old(self).consumed() as int;
            assert(p.len() == len - start);
            assert(old(self).received().len() == c + len - start);
            assert forall|i: int| 0 <= i < len - start implies
                #[trigger] old(self).received()[c + i] == fs[start + i] by {
                assert(p[i] == old(self).received()[c + i]);
                assert(p[i] == fs[start + i]);
            }
            assert(p =~= fs.subrange(start as int, len as int));
            assert(r@ =~= p.subrange(0, end - start));
            assert(old(self).received().subrange(old(self).consumed() as int, self.consumed@ as int)
                =~= p.subrange(0, end - start));
            if end < len {
                assert forall|i: int| 0 <= i < len - end implies
                    self.pending()[i] == fs.subrange(end as int, len as int)[i] by {
                    let k = end - start + i;
                    assert(old(self).received()[c + k] == fs[start + k]);
                }
                assert(self.pending() =~= fs.subrange(end as int, len as int));
            }
        }
        r
    }

    pub fn channel_count(&self) -> (r: ChannelCount)
        ensures
            r == self.channels(),
    {
        self.channels
    }

    pub fn sample_rate(&self) -> (r: SampleRate)
        ensures
            r == self.rate(),
    {
        self.sample_rate
    }
}

} // verus!
