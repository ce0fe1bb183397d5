use std::collections::VecDeque;

use waycap_core::audio_encoder::{AudioEncoder, AudioEncoderImpl, EncoderError};
use waycap_core::RawAudioFrame;
use waycap_core::ONE_MICROS;

/// A fake audio encoder for testing.
#[derive(Clone)]
pub struct FakeAudioEncoder {
    pub channels: u16,
    pub frame_size: usize,
    pub rate: u32,
    pub sent_frames: Vec<Vec<u32>>,
    pub queued_packets: VecDeque<Vec<u32>>,
}

impl FakeAudioEncoder {
    /// Create a new fake. By default no packets are queued.
    pub fn new(channels: u16, frame_size: usize, rate: u32) -> Self {
        Self {
            channels,
            frame_size,
            rate,
            sent_frames: Vec::new(),
            queued_packets: VecDeque::new(),
        }
    }

    /// Sample words pushed here come back from `receive_packet`.
    pub fn push_packet(&mut self, data: Vec<u32>) {
        self.queued_packets.push_back(data);
    }
}

impl AudioEncoderImpl for FakeAudioEncoder {
    fn channels(&self) -> u16 {
        self.channels
    }

    fn frame_size(&self) -> usize {
        self.frame_size
    }

    fn rate(&self) -> u32 {
        self.rate
    }

    fn send_frame(&mut self, _pts: i64, samples: &Vec<u32>) -> Result<(), EncoderError> {
        let buf = samples.clone();
        self.push_packet(buf.clone());
        self.sent_frames.push(buf);
        Ok(())
    }

    fn receive_packet(&mut self) -> Result<(i64, Vec<u8>), EncoderError> {
        if let Some(data) = self.queued_packets.pop_front() {
            let as_u8: &[u8] = bytemuck::cast_slice(&data);
            let pts = (self.sent_frames.len() - 1) as i64 * self.frame_size as i64;
            Ok((pts, as_u8.to_vec()))
        } else {
            Err(EncoderError::Failed)
        }
    }

    fn send_eof(&mut self) -> Result<(), EncoderError> {
        Ok(())
    }
}

fn create_default_frame_encoder() -> FakeAudioEncoder {
    // These numbers match the default opus encoder values
    FakeAudioEncoder::new(
        /*channels=*/ 2, /*frame_size=*/ 960, /*rate=*/ 48000,
    )
}

fn zero_samples(n: usize) -> Vec<u32> {
    // the bit pattern of silence: every float sample is 0.0
    vec![0u32; n]
}

#[test]
fn test_process_drain() {
    let fake = create_default_frame_encoder();
    let mut audio_encoder = AudioEncoder::new_with_encoder(fake.clone(), 10);

    let raw = [
        RawAudioFrame {
            timestamp: 1,
            samples: zero_samples(1024),
        },
        RawAudioFrame {
            timestamp: 2,
            samples: zero_samples(1024),
        },
    ];

    for frame in raw.iter() {
        audio_encoder.process(frame).unwrap();
    }

    audio_encoder.drain().unwrap();
    audio_encoder.drop_encoder();

    let buffer = audio_encoder.get_buffer();

    assert!(buffer.get_frames().is_empty());
    assert!(buffer.get_capture_times().is_empty());
}

#[test]
fn test_process_no_trim() {
    let fake = create_default_frame_encoder();
    let mut audio_encoder = AudioEncoder::new_with_encoder(fake.clone(), 10);

    let raw = [
        RawAudioFrame {
            timestamp: 1,
            samples: zero_samples(1024),
        },
        RawAudioFrame {
            timestamp: 2,
            samples: zero_samples(1024),
        },
    ];

    for frame in raw.iter() {
        audio_encoder.process(frame).unwrap();
    }

    let encoder = audio_encoder.get_encoder().as_ref().unwrap();
    let buffer = audio_encoder.get_buffer();

    assert_eq!(encoder.sent_frames.len(), 2);
    assert_eq!(buffer.get_frames().len(), 2);
    assert_eq!(*buffer.get_capture_times(), vec![1, 2]);
    assert_eq!(
        buffer
            .get_frames()
            .iter()
            .map(|(k, _)| *k)
            .collect::<Vec<_>>(),
        vec![0, 960]
    );
}

#[test]
fn test_process_duplicate_timestamps_when_leftover_is_multiple_of_sample() {
    let fake = create_default_frame_encoder();
    let mut audio_encoder = AudioEncoder::new_with_encoder(fake.clone(), 60);

    let mut raw_frames = vec![];
    let mut actual_capture_times = vec![];

    for i in 1..=15 {
        raw_frames.push(RawAudioFrame {
            timestamp: i,
            samples: zero_samples(1024),
        });

        actual_capture_times.push(i);
    }

    // This frame should be duplicated
    actual_capture_times.push(15);

    for frame in raw_frames.iter() {
        audio_encoder.process(frame).unwrap();
    }

    let encoder = audio_encoder.get_encoder().as_ref().unwrap();
    let buffer = audio_encoder.get_buffer();

    assert_eq!(encoder.sent_frames.len(), actual_capture_times.len());
    assert_eq!(buffer.get_frames().len(), actual_capture_times.len());

    assert_eq!(*buffer.get_capture_times(), actual_capture_times);
    assert_eq!(
        *buffer
            .get_frames()
            .iter()
            .map(|(k, _)| *k)
            .collect::<Vec<_>>()
            .last()
            .unwrap(),
        actual_capture_times.len() as i64 * fake.frame_size as i64 - fake.frame_size as i64,
    );
}

#[test]
fn test_process_trimming() {
    let fake = create_default_frame_encoder();
    let max_frames = 15;
    let mut audio_encoder = AudioEncoder::new_with_encoder(fake.clone(), 5);

    let mut raw_frames = vec![];
    // 5 second window
    let actual_capture_times = vec![
        11 * ONE_MICROS as i64,
        12 * ONE_MICROS as i64,
        13 * ONE_MICROS as i64,
        14 * ONE_MICROS as i64,
        15 * ONE_MICROS as i64,
        15 * ONE_MICROS as i64,
    ];

    for i in 1..=max_frames {
        raw_frames.push(RawAudioFrame {
            timestamp: i * ONE_MICROS as i64,
            samples: zero_samples(1024),
        });
    }

    for frame in raw_frames.iter() {
        audio_encoder.process(frame).unwrap();
    }

    let encoder = audio_encoder.get_encoder().as_ref().unwrap();
    let buffer = audio_encoder.get_buffer();

    println!("{:?}", buffer.get_capture_times());
    assert_eq!(encoder.sent_frames.len() as i64, max_frames + 1); // Duplicate last frame
    assert_eq!(buffer.get_frames().len(), actual_capture_times.len());

    assert_eq!(*buffer.get_capture_times(), actual_capture_times);
    assert_eq!(
        *buffer
            .get_frames()
            .iter()
            .map(|(k, _)| *k)
            .collect::<Vec<_>>()
            .last()
            .unwrap(),
        (max_frames + 1) * fake.frame_size as i64 - fake.frame_size as i64,
    );
}

#[test]
fn test_process_rejects_uneven_channel_groups() {
    let fake = create_default_frame_encoder();
    let mut audio_encoder = AudioEncoder::new_with_encoder(fake, 10);

    // 1023 samples over 2 channels is not a whole number of groups
    let bad = RawAudioFrame {
        timestamp: 1,
        samples: zero_samples(1023),
    };
    assert_eq!(audio_encoder.process(&bad), Err(EncoderError::InvalidData));

    // nothing was recorded and a valid frame still goes through
    assert!(audio_encoder.get_buffer().get_capture_times().is_empty());
    let good = RawAudioFrame {
        timestamp: 2,
        samples: zero_samples(1024),
    };
    audio_encoder.process(&good).unwrap();
    assert_eq!(*audio_encoder.get_buffer().get_capture_times(), vec![2]);
}

#[test]
fn test_process_keeps_leftover_across_calls() {
    let fake = create_default_frame_encoder();
    let mut audio_encoder = AudioEncoder::new_with_encoder(fake, 10);

    // 900 samples: no whole frame yet, everything is carried over
    audio_encoder
        .process(&RawAudioFrame {
            timestamp: 1,
            samples: zero_samples(900),
        })
        .unwrap();
    assert!(audio_encoder.get_buffer().get_capture_times().is_empty());

    // 60 more complete the first 960-sample frame exactly
    audio_encoder
        .process(&RawAudioFrame {
            timestamp: 2,
            samples: zero_samples(60),
        })
        .unwrap();
    assert_eq!(*audio_encoder.get_buffer().get_capture_times(), vec![2]);
    assert_eq!(
        audio_encoder
            .get_buffer()
            .get_frames()
            .iter()
            .map(|(k, _)| *k)
            .collect::<Vec<_>>(),
        vec![0]
    );
}

#[test]
fn test_drain_twice_is_noop_after_first() {
    let fake = create_default_frame_encoder();
    let mut audio_encoder = AudioEncoder::new_with_encoder(fake, 10);

    audio_encoder
        .process(&RawAudioFrame {
            timestamp: 1,
            samples: zero_samples(1024),
        })
        .unwrap();

    audio_encoder.drain().unwrap();
    let frames_after_first: Vec<(i64, Vec<u8>)> =
        audio_encoder.get_buffer().get_frames().clone();
    let times_after_first: Vec<i64> = audio_encoder.get_buffer().get_capture_times().clone();

    audio_encoder.drain().unwrap();
    assert_eq!(*audio_encoder.get_buffer().get_frames(), frames_after_first);
    assert_eq!(
        *audio_encoder.get_buffer().get_capture_times(),
        times_after_first
    );
}

#[test]
fn test_reset_encoder_restarts_timestamps() {
    let fake = create_default_frame_encoder();
    let mut audio_encoder = AudioEncoder::new_with_encoder(fake, 10);

    audio_encoder
        .process(&RawAudioFrame {
            timestamp: 1,
            samples: zero_samples(2048),
        })
        .unwrap();
    assert_eq!(
        audio_encoder
            .get_buffer()
            .get_frames()
            .iter()
            .map(|(k, _)| *k)
            .collect::<Vec<_>>(),
        vec![0, 960]
    );

    audio_encoder.reset_encoder(create_default_frame_encoder());
    assert!(audio_encoder.get_buffer().get_frames().is_empty());

    // the leftover 128 samples from before the reset are still carried
    audio_encoder
        .process(&RawAudioFrame {
            timestamp: 9,
            samples: zero_samples(832),
        })
        .unwrap();
    assert_eq!(
        audio_encoder
            .get_buffer()
            .get_frames()
            .iter()
            .map(|(k, _)| *k)
            .collect::<Vec<_>>(),
        vec![0]
    );
}
