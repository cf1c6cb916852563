use audio::executor::{on_event, StreamAction, StreamEvent, StreamState};
use audio::flush::FlushSchedule;
use audio::spectrum::{bin_scale, folded_len, BinScale};
use audio::{Chain, ChannelCount, Frame, FrameAccumulator, Identity, Input, InputError, Output, OutputError};
use audio::{Pipeline, ProcessError, SampleRate, Step};

struct Samples(Vec<f32>);

impl Input for Samples {
    type Item = f32;

    fn read(&mut self) -> Result<f32, InputError> {
        if self.0.is_empty() {
            Err(InputError::StreamEnded)
        } else {
            Ok(self.0.remove(0))
        }
    }

    fn try_read(&mut self) -> Result<Option<f32>, InputError> {
        Ok(if self.0.is_empty() { None } else { Some(self.0.remove(0)) })
    }
}

struct Sink {
    frames: Vec<Vec<f32>>,
    capacity: usize,
}

impl Output<Frame<f32>> for Sink {
    fn push(&mut self, item: Frame<f32>) -> Result<(), OutputError> {
        if self.frames.len() == self.capacity {
            Err(OutputError::DeviceClosed)
        } else {
            self.frames.push(item.samples);
            Ok(())
        }
    }
}

/// Yields each input twice.
struct Twice;

impl Step for Twice {
    type Input = f32;
    type Output = f32;

    fn process(&mut self, input: f32) -> Vec<f32> {
        vec![input, input]
    }
}

#[test]
fn identity_yields_input() {
    let mut id = Identity::<u8>::new();
    assert_eq!(id.process(7), vec![7]);
}

#[test]
fn chain_feeds_every_intermediate_in_order() {
    let accum = FrameAccumulator::new(ChannelCount::new(1), SampleRate::new(10), 3);
    let mut chain = Chain::new(Twice, accum);
    assert!(chain.process(1.).is_empty());
    let out = chain.process(2.);
    assert_eq!(out.len(), 1);
    assert_eq!(out[0].samples, [1., 1., 2.]);
    let out = chain.process(3.);
    assert_eq!(out.len(), 1);
    assert_eq!(out[0].samples, [2., 3., 3.]);
    assert!(chain.first_mut().process(0.).len() == 2);
    assert!(chain.second_mut().process(9.).is_empty());
}

#[test]
fn pipeline_moves_frames_to_sink() {
    let accum = FrameAccumulator::new(ChannelCount::new(1), SampleRate::new(10), 2);
    let sink = Sink { frames: Vec::new(), capacity: 10 };
    let mut p = Pipeline::new(Samples(vec![1., 2., 3.]), Chain::new(Identity::new(), accum), sink);
    assert_eq!(p.process_once(), Ok(()));
    assert_eq!(p.process_once(), Ok(()));
    assert_eq!(p.process_once(), Ok(()));
    assert_eq!(p.process_once(), Err(ProcessError::InputError(InputError::StreamEnded)));
    assert!(p.input_mut().0.is_empty());
    let pending = p.step_mut().second_mut().process(4.);
    assert_eq!(pending[0].samples, [3., 4.]);
}

#[test]
fn pipeline_reports_sink_failure_after_earlier_pushes() {
    let sink = Sink { frames: Vec::new(), capacity: 1 };
    let accum = FrameAccumulator::new(ChannelCount::new(1), SampleRate::new(10), 1);
    let mut p = Pipeline::new(Samples(vec![5.]), Chain::new(Twice, accum), sink);
    assert_eq!(p.process_once(), Err(ProcessError::OutputError(OutputError::DeviceClosed)));
}

#[test]
fn folded_length_truncates() {
    assert_eq!(folded_len(4), 3);
    assert_eq!(folded_len(5), 3);
    assert_eq!(folded_len(1), 1);
    assert_eq!(folded_len(0), 0);
}

#[test]
fn bin_scale_even_and_odd() {
    assert_eq!(bin_scale(0, 4), BinScale::OverLen);
    assert_eq!(bin_scale(1, 4), BinScale::TwiceOverLen);
    assert_eq!(bin_scale(2, 4), BinScale::OverLen);
    assert_eq!(bin_scale(0, 5), BinScale::OverLen);
    assert_eq!(bin_scale(1, 5), BinScale::TwiceOverLen);
    assert_eq!(bin_scale(2, 5), BinScale::TwiceOverLen);
}

#[test]
fn executor_decisions() {
    assert_eq!(
        on_event(StreamState::Running, StreamEvent::FrameRead),
        (StreamState::Running, StreamAction::Process)
    );
    assert_eq!(
        on_event(StreamState::Running, StreamEvent::InputClosed),
        (StreamState::Terminal, StreamAction::AnnounceClosed)
    );
    assert_eq!(
        on_event(StreamState::Running, StreamEvent::ConsumerClosed),
        (StreamState::Terminal, StreamAction::Stop)
    );
    assert_eq!(
        on_event(StreamState::Terminal, StreamEvent::FrameRead),
        (StreamState::Terminal, StreamAction::Stop)
    );
}

#[test]
fn flush_schedule_flushes_past_threshold() {
    let mut s = FlushSchedule::new(10);
    assert!(!s.record(6));
    assert!(!s.record(4));
    assert!(s.record(1));
    assert!(!s.record(10));
    assert!(s.record(usize::MAX));
}

#[test]
fn units_convert() {
    assert_eq!(u16::from(ChannelCount::new(3)), 3);
    assert_eq!(usize::from(ChannelCount::new(3)), 3);
    assert_eq!(u32::from(SampleRate::new(44100)), 44100);
    assert_eq!(usize::from(SampleRate::new(44100)), 44100);
    assert_eq!(SampleRate::new(7).as_usize(), 7);
}

#[test]
fn process_item_without_outputs_succeeds() {
    let sink = Sink { frames: Vec::new(), capacity: 0 };
    let accum = FrameAccumulator::new(ChannelCount::new(1), SampleRate::new(10), 2);
    let mut p = Pipeline::new(Samples(vec![]), accum, sink);
    // The first sample completes no frame, so the full sink is never asked.
    assert_eq!(p.process_item(1.), Ok(()));
    assert_eq!(p.process_item(2.), Err(ProcessError::OutputError(OutputError::DeviceClosed)));
}
