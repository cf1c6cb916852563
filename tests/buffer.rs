use audio::{ChannelCount, Frame, FrameAccumulator, PeriodBuffer, SampleBuffer, SampleRate, Step};

fn frame(channels: u16, samples: Vec<f32>) -> Frame<f32> {
    Frame {
        channels: ChannelCount::new(channels),
        sample_rate: SampleRate::new(44100),
        samples,
    }
}

#[test]
fn buffer_deinterlacing() {
    let mut buf: SampleBuffer<f32> = SampleBuffer::new(ChannelCount::new(2), SampleRate::new(44100), 100);
    buf.push(&Frame {
        channels: ChannelCount::new(2),
        sample_rate: SampleRate::new(44100),
        samples: vec![1., 2., 3., 4.],
    });
    assert_eq!(buf.peek_tail(0, 2), [1., 3.]);
    assert_eq!(buf.peek_tail(1, 2), [2., 4.]);
}

#[test]
fn buffer_wrap_around() {
    let mut buf: SampleBuffer<f32> = SampleBuffer::new(ChannelCount::new(1), SampleRate::new(44100), 4);
    // Three 1's, almost filling the ring of four
    buf.push(&Frame {
        channels: ChannelCount::new(1),
        sample_rate: SampleRate::new(44100),
        samples: vec![1.; 3],
    });
    // Two 2's, filling the ring and then replacing the first 1
    buf.push(&Frame {
        channels: ChannelCount::new(1),
        sample_rate: SampleRate::new(44100),
        samples: vec![2.; 2],
    });
    // The ring has wrapped, so it is split in two segments: it was not
    // rotated by accident.
    assert_eq!(buf.as_slices(0), ([1., 1., 2.].as_slice(), [2.].as_slice()));
}

#[test]
fn buffer_basic_period_stream() {
    let mut stream = PeriodBuffer::new(
        SampleBuffer::new(ChannelCount::new(1), SampleRate::new(44100), 100),
        4,
        2,
    );
    stream.push(&Frame {
        channels: ChannelCount::new(1),
        sample_rate: SampleRate::new(44100),
        samples: (1..8).map(|x| x as f32).collect(),
    });

    if let Some(p) = stream.next() {
        let (a, b) = p.get_channel(0).slices();
        assert_eq!(a, [1., 2., 3., 4.]);
        assert_eq!(b, []);
    } else {
        panic!("expected period");
    }

    if let Some(p) = stream.next() {
        let (a, b) = p.get_channel(0).slices();
        assert_eq!(a, [3., 4., 5., 6.]);
        assert_eq!(b, []);
    } else {
        panic!("expected period");
    }

    assert!(stream.next().is_none());

    stream.push(&Frame {
        channels: ChannelCount::new(1),
        sample_rate: SampleRate::new(44100),
        samples: (8..9).map(|x| x as f32).collect(),
    });

    if let Some(p) = stream.next() {
        let (a, b) = p.get_channel(0).slices();
        assert_eq!(a, [5., 6., 7., 8.]);
        assert_eq!(b, []);
    } else {
        panic!("expected period");
    }
}

#[test]
fn buffer_periods_split_ring() {
    // Fill an 8-sample ring (without wrapping yet)
    let mut stream = PeriodBuffer::new(
        SampleBuffer::new(ChannelCount::new(1), SampleRate::new(44100), 8),
        4,
        2,
    );
    stream.push(&Frame {
        channels: ChannelCount::new(1),
        sample_rate: SampleRate::new(44100),
        samples: (0..8).map(|x| x as f32).collect(),
    });

    for _ in 0..2 {
        assert!(stream.next().is_some());
    }

    // The period that reaches the end of the stream
    if let Some(p) = stream.next() {
        let (a, b) = p.get_channel(0).slices();
        assert_eq!(a, [4., 5., 6., 7.]);
        assert_eq!(b, []);
    } else {
        panic!("expected period");
    }

    // More samples split the ring
    stream.push(&Frame {
        channels: ChannelCount::new(1),
        sample_rate: SampleRate::new(44100),
        samples: (8..12).map(|x| x as f32).collect(),
    });

    // The next period is split between samples 7 and 8
    if let Some(p) = stream.next() {
        let (a, b) = p.get_channel(0).slices();
        assert_eq!(a, [6., 7.]);
        assert_eq!(b, [8., 9.]);
        let v: Vec<f32> = p.get_channel(0).iter();
        assert_eq!(v, [6., 7., 8., 9.])
    } else {
        panic!("expected period");
    }

    // Not split, but entirely within the second ring segment
    if let Some(p) = stream.next() {
        let (a, b) = p.get_channel(0).slices();
        assert_eq!(a, [8., 9., 10., 11.]);
        assert_eq!(b, []);
    } else {
        panic!("expected period");
    }
}

#[test]
fn test_frame_accumulator() {
    let mut accum = FrameAccumulator::new(ChannelCount::new(1), SampleRate::new(44100), 4);
    for i in 0..3 {
        assert!(accum.process(i as f32).is_empty());
    }
    let f = accum.process(3.).pop().unwrap();
    assert_eq!(f.samples, [0., 1., 2., 3.]);

    for i in 4..7 {
        assert!(accum.process(i as f32).is_empty());
    }
    let f = accum.process(7.).pop().unwrap();
    assert_eq!(f.samples, [4., 5., 6., 7.]);
}

#[test]
fn ring_keeps_latest_samples_in_order() {
    let mut buf: SampleBuffer<u32> = SampleBuffer::new(ChannelCount::new(2), SampleRate::new(8000), 5);
    let mut next: u32 = 0;
    for batch in [3usize, 1, 4, 2, 6] {
        let mut samples = Vec::new();
        for _ in 0..batch {
            samples.push(next);
            samples.push(1000 + next);
            next += 1;
        }
        buf.push(&Frame { channels: ChannelCount::new(2), sample_rate: SampleRate::new(8000), samples });
    }
    assert_eq!(buf.sample_count(), 16);
    assert_eq!(buf.len(), 5);
    assert_eq!(buf.oldest_sample_index(), 11);
    for (c, base) in [(0usize, 0u32), (1, 1000)] {
        let (a, b) = buf.as_slices(c);
        let all: Vec<u32> = a.iter().chain(b.iter()).copied().collect();
        assert_eq!(all, (11..16).map(|x| x + base).collect::<Vec<u32>>());
    }
}

#[test]
fn period_channels_are_deinterleaved() {
    let mut stream = PeriodBuffer::new(SampleBuffer::new(ChannelCount::new(2), SampleRate::new(44100), 8), 2, 2);
    stream.push(&frame(2, vec![1., 10., 2., 20., 3., 30.]));
    let p = stream.next().unwrap();
    assert_eq!(p.start_sample_num(), 0);
    assert_eq!(p.end_sample_num(), 2);
    assert_eq!(p.len(), 2);
    assert_eq!(p.channel_count(), ChannelCount::new(2));
    let chans = p.channels();
    assert_eq!(chans.len(), 2);
    assert_eq!(chans[0].iter(), [1., 2.]);
    assert_eq!(chans[1].iter(), [10., 20.]);
    assert_eq!(chans[1].len(), 2);
    assert_eq!(chans[1].sample_rate(), SampleRate::new(44100));
    assert!(!stream.has_next());
}

#[test]
fn period_buffer_fits_guards_retention() {
    let mut stream = PeriodBuffer::new(SampleBuffer::new(ChannelCount::new(1), SampleRate::new(44100), 4), 2, 2);
    // The next period starts at sample 0; the ring holds 4 instants.
    assert!(stream.fits(&frame(1, vec![0.; 4])));
    assert!(!stream.fits(&frame(1, vec![0.; 5])));
    stream.push(&frame(1, vec![0., 1., 2., 3.]));
    assert!(stream.next().is_some());
    // The next period now starts at sample 2, so two more instants fit.
    assert!(stream.fits(&frame(1, vec![4., 5.])));
    assert!(!stream.fits(&frame(1, vec![4., 5., 6.])));
}

#[test]
fn accumulator_with_frame_len_changes_length() {
    let mut accum = FrameAccumulator::new(ChannelCount::new(2), SampleRate::new(48000), FrameAccumulator::<f32>::DEFAULT_FRAME_LEN)
        .with_frame_len(2);
    assert!(accum.process(1.).is_empty());
    let f = accum.process(2.).pop().unwrap();
    assert_eq!(f.samples, [1., 2.]);
    assert_eq!(f.channels, ChannelCount::new(2));
    assert_eq!(f.sample_rate, SampleRate::new(48000));
}

#[test]
fn timeseries_numbers_samples_across_segments() {
    let mut stream = PeriodBuffer::new(SampleBuffer::new(ChannelCount::new(1), SampleRate::new(44100), 8), 4, 2);
    stream.push(&frame(1, (0..8).map(|x| x as f32).collect()));
    for _ in 0..3 {
        assert!(stream.next().is_some());
    }
    stream.push(&frame(1, (8..12).map(|x| x as f32).collect()));
    let p = stream.next().unwrap();
    let c = p.get_channel(0);
    assert_eq!(c.start_sample_num(), 6);
    let mut t = c.into_timeseries();
    assert_eq!(t.next(), Some((6, 6.)));
    assert_eq!(t.next(), Some((7, 7.)));
    assert_eq!(t.next(), Some((8, 8.)));
    assert_eq!(t.next(), Some((9, 9.)));
    assert_eq!(t.next(), None);
    assert_eq!(t.next(), None);
}
