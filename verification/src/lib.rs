//! Core of a shadow-capture screen recorder.
//!
//! The library holds the verified heart of the pipeline: the rolling
//! buffers that keep the most recent window of encoded video and audio,
//! the audio chunking logic that feeds an Opus encoder, the planning of
//! the final MP4 mux, and the small pieces of control logic (quality
//! preset tables, configuration validation, frame pacing, application
//! state).  Everything that talks to hardware encoders, PipeWire, or the
//! file system lives outside the library and exchanges plain values with
//! it.

use vstd::prelude::*;

pub mod audio_encoder;
pub mod buffer;
pub mod config;
pub mod control;
pub mod encoder_params;
pub mod frame_data;
pub mod laws;
pub mod mux;
pub mod ordered;

verus! {

/// One microsecond-per-second scale factor: timestamps are microsecond
/// offsets from a single pipeline epoch.
pub const ONE_MICROS: usize = 1_000_000;

/// Keyframe interval requested from the video encoders.
pub const GOP_SIZE: u32 = 30;

/// Message type used to ask a capture loop to shut down.
pub struct Terminate;

/// A raw video frame as delivered by the capture service: packed BGRA
/// bytes and the capture timestamp in microseconds since the pipeline
/// epoch.
pub struct RawVideoFrame {
    pub bytes: Vec<u8>,
    pub timestamp: i64,
}

/// A raw audio frame as delivered by the capture service.
///
/// Each element of `samples` is the raw 32-bit bit pattern of one
/// interleaved float sample; the library never interprets the sample
/// values, only counts and regroups them.  `timestamp` is in
/// microseconds since the pipeline epoch.
pub struct RawAudioFrame {
    pub samples: Vec<u32>,
    pub timestamp: i64,
}

} // verus!
