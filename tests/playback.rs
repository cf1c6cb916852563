use audio::capture::{capture_outcome, enqueue_captured, CaptureOutcome};
use audio::channel::{Polled, Sent};
use audio::{ChannelCount, Frame, FrameReceiver, FrameReceiverError, SampleRate};

#[test]
fn test_recv_next_slice() {
    let channels = ChannelCount::new(1);
    let sample_rate = SampleRate::new(2);
    let (send, recv) = async_channel::unbounded::<Frame<f32>>();
    let mut iter = FrameReceiver::new(channels, sample_rate, recv);
    assert!(iter.next_slice(42).unwrap().is_none());

    let f1 = Frame { channels, sample_rate, samples: vec![1., 2., 3., 4.] };
    send.send_blocking(f1).unwrap();
    // Just the first 3 of 4 samples:
    assert_eq!(iter.next_slice(3).unwrap().unwrap(), [1., 2., 3.]);
    // Then the remaining one:
    assert_eq!(iter.next_slice(42).unwrap().unwrap(), [4.]);
    // Then nothing:
    assert!(iter.next_slice(42).unwrap().is_none());

    let f2 = Frame { channels, sample_rate, samples: vec![5., 6., 7., 8.] };
    send.send_blocking(f2).unwrap();
    // The entire frame:
    assert_eq!(iter.next_slice(42).unwrap().unwrap(), [5., 6., 7., 8.]);

    // A frame received before the next call is returned
    let f3 = Frame { channels, sample_rate, samples: vec![9., 10.] };
    send.send_blocking(f3).unwrap();
    assert_eq!(iter.next_slice(42).unwrap().unwrap(), [9., 10.])
}

#[test]
fn test_fill_buf() {
    let channels = ChannelCount::new(1);
    let sample_rate = SampleRate::new(2);
    let (send, recv) = async_channel::unbounded::<Frame<f32>>();
    let mut iter = FrameReceiver::new(channels, sample_rate, recv);

    send.send_blocking(Frame { channels, sample_rate, samples: vec![1., 2.] }).unwrap();
    send.send_blocking(Frame { channels, sample_rate, samples: vec![3., 4.] }).unwrap();
    send.send_blocking(Frame { channels, sample_rate, samples: vec![5., 6.] }).unwrap();

    // Most of them, spanning all three frames
    let mut buf = [0f32; 5];
    assert_eq!(iter.fill_buffer(&mut buf[..]).unwrap(), 5);
    assert_eq!(buf, [1., 2., 3., 4., 5.]);

    // Then the last bit, which underfills the buffer:
    let mut buf = [0f32; 2];
    assert_eq!(iter.fill_buffer(&mut buf[..]).unwrap(), 1);
    assert_eq!(buf, [6., 0.]);
}

#[test]
fn fill_buffer_reports_end_of_stream() {
    let channels = ChannelCount::new(1);
    let sample_rate = SampleRate::new(2);
    let (send, recv) = async_channel::unbounded::<Frame<f32>>();
    let mut iter = FrameReceiver::new(channels, sample_rate, recv);
    send.send_blocking(Frame { channels, sample_rate, samples: vec![1.] }).unwrap();
    drop(send);
    let mut buf = [0f32; 3];
    assert_eq!(iter.fill_buffer(&mut buf[..]), Err(FrameReceiverError::EndOfStream));
    assert_eq!(buf, [1., 0., 0.]);
}

#[test]
fn next_slice_rejects_mismatched_frame() {
    let (send, recv) = async_channel::unbounded::<Frame<f32>>();
    let mut iter = FrameReceiver::new(ChannelCount::new(1), SampleRate::new(2), recv);
    send.send_blocking(Frame { channels: ChannelCount::new(2), sample_rate: SampleRate::new(2), samples: vec![1., 2.] })
        .unwrap();
    assert_eq!(iter.next_slice(4).err(), Some(FrameReceiverError::FormatMismatch));
}

#[test]
fn capture_drops_when_queue_is_full() {
    let (send, recv) = async_channel::bounded::<Frame<f32>>(1);
    let channels = ChannelCount::new(1);
    let rate = SampleRate::new(8);
    assert_eq!(enqueue_captured(&send, channels, rate, &[1., 2.]), CaptureOutcome::Queued);
    // The queue is full: the call returns at once and the batch is lost.
    assert_eq!(enqueue_captured(&send, channels, rate, &[3., 4., 5.]), CaptureOutcome::Dropped(3));
    assert_eq!(recv.len(), 1);
    let f = recv.try_recv().unwrap();
    assert_eq!(f.samples, [1., 2.]);
    assert!(recv.try_recv().is_err());
    drop(recv);
    assert_eq!(enqueue_captured(&send, channels, rate, &[6.]), CaptureOutcome::NoReceiver(1));
}

#[test]
fn take_polled_outcomes() {
    let channels = ChannelCount::new(1);
    let rate = SampleRate::new(2);
    let (_send, recv) = async_channel::unbounded::<Frame<f32>>();
    let mut r = FrameReceiver::new(channels, rate, recv);
    assert_eq!(r.take_polled(Polled::Empty, 4), Ok(None));
    assert_eq!(r.take_polled(Polled::Closed, 4), Err(FrameReceiverError::EndOfStream));
    let other = Frame { channels: ChannelCount::new(2), sample_rate: rate, samples: vec![1., 2.] };
    assert_eq!(r.take_polled(Polled::Ready(other), 4), Err(FrameReceiverError::FormatMismatch));
    let empty = Frame { channels, sample_rate: rate, samples: vec![] };
    assert_eq!(r.take_polled(Polled::Ready(empty), 4), Ok(None));
    let f = Frame { channels, sample_rate: rate, samples: vec![1., 2., 3.] };
    assert_eq!(r.take_polled(Polled::Ready(f), 2).unwrap().unwrap(), [1., 2.]);
    // the rest of the frame is current now
    assert_eq!(r.next_slice(5).unwrap().unwrap(), [3.]);
}

#[test]
fn fill_buffer_from_current_frame_needs_no_receive() {
    let channels = ChannelCount::new(1);
    let rate = SampleRate::new(2);
    let (send, recv) = async_channel::unbounded::<Frame<f32>>();
    let mut r = FrameReceiver::new(channels, rate, recv);
    send.send_blocking(Frame { channels, sample_rate: rate, samples: vec![1., 2., 3., 4., 5.] }).unwrap();
    assert_eq!(r.next_slice(1).unwrap().unwrap(), [1.]);
    send.close();
    // Four samples remain of the current frame: a buffer of three fills
    // even though the channel is closed.
    let mut buf = [0f32; 3];
    assert_eq!(r.fill_buffer(&mut buf[..]), Ok(3));
    assert_eq!(buf, [2., 3., 4.]);
    let mut buf = [0f32; 3];
    assert_eq!(r.fill_buffer(&mut buf[..]), Err(FrameReceiverError::EndOfStream));
    assert_eq!(buf, [5., 0., 0.]);
}

#[test]
fn capture_outcome_maps_send_results() {
    assert_eq!(capture_outcome(Sent::Queued, 7), CaptureOutcome::Queued);
    assert_eq!(capture_outcome(Sent::Full, 7), CaptureOutcome::Dropped(7));
    assert_eq!(capture_outcome(Sent::Closed, 7), CaptureOutcome::NoReceiver(7));
}
