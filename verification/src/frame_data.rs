//! Builder-style carriers for one encoded frame's bytes and times.

use vstd::prelude::*;

verus! {

/// One encoded video frame with its capture time in microseconds.
#[derive(Debug, Clone)]
pub struct VideoFrameData {
    frame_bytes: Vec<u8>,
    time: i64,
}

impl VideoFrameData {
    /// The encoded bytes.
    pub closed spec fn bytes_spec(&self) -> Seq<u8> {
        self.frame_bytes@
    }

    /// The capture time in microseconds.
    pub closed spec fn time_spec(&self) -> i64 {
        self.time
    }

    /// An empty frame at time zero, to be filled in.
    pub fn new() -> (r: Self)
        ensures
            r.bytes_spec() =~= Seq::<u8>::empty(),
            r.time_spec() == 0,
    {
        Self { frame_bytes: Vec::new(), time: 0 }
    }

    pub fn set_time(&mut self, time: i64)
        ensures
            final(self).time_spec() == time,
            final(self).bytes_spec() == old(self).bytes_spec(),
    {
        self.time = time;
    }

    pub fn set_frame_bytes(&mut self, frame_bytes: Vec<u8>)
        ensures
            final(self).bytes_spec() == frame_bytes@,
            final(self).time_spec() == old(self).time_spec(),
    {
        self.frame_bytes = frame_bytes;
    }

    /// The encoded bytes.
    pub fn get_frame_bytes(&self) -> (r: &Vec<u8>)
        ensures
            r@ == self.bytes_spec(),
    {
        &self.frame_bytes
    }

    /// The capture time in microseconds.
    pub fn get_time(&self) -> (r: i64)
        ensures
            r == self.time_spec(),
    {
        self.time
    }
}

/// One encoded audio frame with the capture time of its raw audio and
/// its position in the encoder's time scale.
#[derive(Debug, Clone)]
pub struct AudioFrameData {
    frame_bytes: Vec<u8>,
    capture_time: i64,
    chunk_time: i64,
}

impl AudioFrameData {
    /// The encoded bytes.
    pub closed spec fn bytes_spec(&self) -> Seq<u8> {
        self.frame_bytes@
    }

    /// The wall-clock capture time in microseconds.
    pub closed spec fn capture_time_spec(&self) -> i64 {
        self.capture_time
    }

    /// The presentation time in the encoder's sample time base.
    pub closed spec fn chunk_time_spec(&self) -> i64 {
        self.chunk_time
    }

    /// An empty frame at time zero, to be filled in.
    pub fn new() -> (r: Self)
        ensures
            r.bytes_spec() =~= Seq::<u8>::empty(),
            r.capture_time_spec() == 0,
            r.chunk_time_spec() == 0,
    {
        Self { frame_bytes: Vec::new(), capture_time: 0, chunk_time: 0 }
    }

    pub fn set_capture_time(&mut self, time: i64)
        ensures
            final(self).capture_time_spec() == time,
            final(self).bytes_spec() == old(self).bytes_spec(),
            final(self).chunk_time_spec() == old(self).chunk_time_spec(),
    {
        self.capture_time = time;
    }

    pub fn set_frame_bytes(&mut self, frame_bytes: Vec<u8>)
        ensures
            final(self).bytes_spec() == frame_bytes@,
            final(self).capture_time_spec() == old(self).capture_time_spec(),
            final(self).chunk_time_spec() == old(self).chunk_time_spec(),
    {
        self.frame_bytes = frame_bytes;
    }

    pub fn set_chunk_time(&mut self, time: i64)
        ensures
            final(self).chunk_time_spec() == time,
            final(self).bytes_spec() == old(self).bytes_spec(),
            final(self).capture_time_spec() == old(self).capture_time_spec(),
    {
        self.chunk_time = time;
    }

    /// The encoded bytes.
    pub fn get_frame_bytes(&self) -> (r: &Vec<u8>)
        ensures
            r@ == self.bytes_spec(),
    {
        &self.frame_bytes
    }

    /// The wall-clock capture time in microseconds.
    pub fn get_capture_time(&self) -> (r: i64)
        ensures
            r == self.capture_time_spec(),
    {
        self.capture_time
    }

    /// The presentation time in the encoder's sample time base.
    pub fn get_chunk_time(&self) -> (r: i64)
        ensures
            r == self.chunk_time_spec(),
    {
        self.chunk_time
    }
}

} // verus!
