use async_channel::Sender;

use vstd::prelude::*;

use crate::channel::{try_send, Sent};
use crate::frame::Frame;
use crate::units::{ChannelCount, SampleRate};

verus! {

/// What became of a captured batch.
#[derive(Debug, PartialEq, Eq, Structural, Clone, Copy)]
pub enum CaptureOutcome {
    /// Queued for the processing thread.
    Queued,
    /// The queue was full: this many samples were dropped.
    Dropped(usize),
    /// Nobody receives any more: this many samples were dropped.
    NoReceiver(usize),
}

/// What becomes of a batch of `n` samples that a non-blocking send left
/// as `sent`: a full queue drops it, and so does a closed one.
pub fn capture_outcome(sent: Sent, n: usize) -> (r: CaptureOutcome)
    ensures
        r == capture_outcome_spec(sent, n),
        sent == Sent::Queued ==> r == CaptureOutcome::Queued,
        sent == Sent::Full ==> r == CaptureOutcome::Dropped(n),
        sent == Sent::Closed ==> r == CaptureOutcome::NoReceiver(n),
{
    match sent {
        Sent::Queued => CaptureOutcome::Queued,
        Sent::Full => CaptureOutcome::Dropped(n),
        Sent::Closed => CaptureOutcome::NoReceiver(n),
    }
}

/// Hands a batch captured on a device thread to the processing side. It
/// never waits: when the queue is full the batch is dropped, not retried,
/// since losing data is acceptable there and blocking the device is not.
/// Which outcome comes depends on other threads; `capture_outcome` says
/// what each send result leads to.
pub fn enqueue_captured<S: Copy>(
    sender: &Sender<Frame<S>>,
    channels: ChannelCount,
    sample_rate: SampleRate,
    data: &[S],
) -> (r: CaptureOutcome)
    ensures
        exists|sent: Sent| r == #[trigger] capture_outcome_spec(sent, data@.len() as usize),
{
    let n = data.len();
    let frame = Frame::from_slice(channels, sample_rate, data);
    let sent = try_send(sender, frame);
    let r = capture_outcome(sent, n);
    assert(n == data@.len());
    assert(r == capture_outcome_spec(sent, data@.len() as usize));
    r
}

/// The outcome `capture_outcome` gives.
pub open spec fn capture_outcome_spec(sent: Sent, n: usize) -> CaptureOutcome {
    match sent {
        Sent::Queued => CaptureOutcome::Queued,
        Sent::Full => CaptureOutcome::Dropped(n),
        Sent::Closed => CaptureOutcome::NoReceiver(n),
    }
}

} // verus!
