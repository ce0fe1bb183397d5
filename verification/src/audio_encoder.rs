//! Chunking and buffering of audio on its way into an Opus encoder.
//!
//! Raw capture hands over sample runs of arbitrary length; the encoder
//! only accepts frames of its fixed size.  This module owns the
//! carry-over between calls, the assignment of presentation
//! timestamps, and the pairing of every encoder frame with the capture
//! timestamp of the raw audio it came from.  The encoder itself sits
//! behind the [`AudioEncoderImpl`] trait, implemented outside the
//! library; what an encoder hands back is never trusted, and the
//! contracts state exactly what holds whatever it returns.

use vstd::prelude::*;

use crate::buffer::{lemma_audio_insert_spec_props, AudioBufView, ShadowCaptureAudioBuffer};
use crate::ordered::entry_insert;
use crate::RawAudioFrame;
use crate::ONE_MICROS;

verus! {

/// Failures of audio encoding.
#[derive(Debug, PartialEq, Eq, Structural)]
pub enum EncoderError {
    /// A raw frame whose sample count is not a whole number of
    /// interleaved channel groups.
    InvalidData,
    /// The underlying encoder refused a frame or its end-of-stream
    /// mark.
    Failed,
}

/// The encoder interface the chunker drives.  Sample runs are handed
/// over as raw 32-bit sample words; packets come back as opaque bytes
/// under their presentation timestamp.
pub trait AudioEncoderImpl {
    /// Interleaved channel count.
    fn channels(&self) -> u16;

    /// Samples per encoder frame, already scaled by the channel count.
    fn frame_size(&self) -> usize;

    /// Sample rate in Hz.
    fn rate(&self) -> u32;

    /// Submits one frame of exactly `frame_size` samples.
    fn send_frame(&mut self, pts: i64, samples: &Vec<u32>) -> Result<(), EncoderError>;

    /// Pulls one encoded packet, if one is ready.
    fn receive_packet(&mut self) -> Result<(i64, Vec<u8>), EncoderError>;

    /// Marks the end of the stream so remaining packets can drain.
    fn send_eof(&mut self) -> Result<(), EncoderError>;
}

/// A sample run is acceptable when it splits into whole interleaved
/// channel groups.
pub open spec fn samples_valid(n: nat, channels: nat) -> bool {
    channels >= 1 && n % channels == 0
}

/// How many whole encoder frames a run of `total` samples yields.
pub open spec fn chunk_count(total: nat, fs: nat) -> nat {
    if fs >= 1 {
        total / fs
    } else {
        0
    }
}

/// The buffer after recording the capture timestamp of one chunk.
pub open spec fn push_time(b: AudioBufView, ts: i64) -> AudioBufView {
    AudioBufView { times: b.times.push(ts), ..b }
}

/// The buffer after one chunk: its capture timestamp is recorded, and
/// the packet the encoder returned for it — if any — is stored.
pub open spec fn chunk_step(b: AudioBufView, ts: i64, out: Option<(i64, Vec<u8>)>) -> AudioBufView {
    match out {
        Some(p) => push_time(b, ts).insert_spec(p.0, p.1),
        None => push_time(b, ts),
    }
}

/// The buffer after a run of chunks with the packets `outs` coming
/// back from the encoder.
pub open spec fn chunks_fold(b: AudioBufView, ts: i64, outs: Seq<Option<(i64, Vec<u8>)>>) -> AudioBufView
    decreases outs.len(),
{
    if outs.len() == 0 {
        b
    } else {
        chunks_fold(chunk_step(b, ts, outs[0]), ts, outs.skip(1))
    }
}

/// The buffer after a drain with the packets `outs` coming back.
pub open spec fn drain_fold(b: AudioBufView, outs: Seq<(i64, Vec<u8>)>) -> AudioBufView
    decreases outs.len(),
{
    if outs.len() == 0 {
        b
    } else {
        drain_fold(b.insert_spec(outs[0].0, outs[0].1), outs.skip(1))
    }
}

/// Folding one more chunk is one more step.
proof fn lemma_chunks_fold_push(
    b: AudioBufView,
    ts: i64,
    outs: Seq<Option<(i64, Vec<u8>)>>,
    out: Option<(i64, Vec<u8>)>,
)
    ensures
        chunks_fold(b, ts, outs.push(out)) == chunk_step(chunks_fold(b, ts, outs), ts, out),
    decreases outs.len(),
{
    if outs.len() == 0 {
        assert(outs.push(out)[0] == out);
        assert(outs.push(out).skip(1) =~= Seq::<Option<(i64, Vec<u8>)>>::empty());
        assert(chunks_fold(b, ts, outs.push(out)) == chunks_fold(
            chunk_step(b, ts, out),
            ts,
            outs.push(out).skip(1),
        ));
        assert(chunks_fold(chunk_step(b, ts, out), ts, outs.push(out).skip(1)) == chunk_step(
            b,
            ts,
            out,
        ));
    } else {
        assert(outs.push(out)[0] == outs[0]);
        assert(outs.push(out).skip(1) =~= outs.skip(1).push(out));
        assert(chunks_fold(b, ts, outs.push(out)) == chunks_fold(
            chunk_step(b, ts, outs[0]),
            ts,
            outs.skip(1).push(out),
        ));
        lemma_chunks_fold_push(chunk_step(b, ts, outs[0]), ts, outs.skip(1), out);
    }
}

/// Draining one more packet is one more insertion.
proof fn lemma_drain_fold_push(b: AudioBufView, outs: Seq<(i64, Vec<u8>)>, out: (i64, Vec<u8>))
    ensures
        drain_fold(b, outs.push(out)) == drain_fold(b, outs).insert_spec(out.0, out.1),
    decreases outs.len(),
{
    if outs.len() == 0 {
        assert(outs.push(out)[0] == out);
        assert(outs.push(out).skip(1) =~= Seq::<(i64, Vec<u8>)>::empty());
        assert(drain_fold(b, outs.push(out)) == drain_fold(
            b.insert_spec(out.0, out.1),
            outs.push(out).skip(1),
        ));
        assert(drain_fold(b.insert_spec(out.0, out.1), outs.push(out).skip(1)) == b.insert_spec(
            out.0,
            out.1,
        ));
    } else {
        assert(outs.push(out)[0] == outs[0]);
        assert(outs.push(out).skip(1) =~= outs.skip(1).push(out));
        assert(drain_fold(b, outs.push(out)) == drain_fold(
            b.insert_spec(outs[0].0, outs[0].1),
            outs.skip(1).push(out),
        ));
        lemma_drain_fold_push(b.insert_spec(outs[0].0, outs[0].1), outs.skip(1), out);
    }
}

/// A chunk run preserves the buffer invariant and its window.
proof fn lemma_chunks_fold_props(b: AudioBufView, ts: i64, outs: Seq<Option<(i64, Vec<u8>)>>)
    requires
        b.inv(),
    ensures
        chunks_fold(b, ts, outs).inv(),
        chunks_fold(b, ts, outs).window == b.window,
    decreases outs.len(),
{
    if outs.len() > 0 {
        match outs[0] {
            Some(p) => {
                lemma_audio_insert_spec_props(push_time(b, ts), p.0, p.1);
            },
            None => {},
        }
        lemma_chunks_fold_props(chunk_step(b, ts, outs[0]), ts, outs.skip(1));
    }
}

/// Law: an encoder with nothing left to give leaves the buffer as it
/// was — a drain that receives no packet changes nothing, so a second
/// drain after the first has emptied the encoder is without effect.
pub proof fn lemma_drain_without_packets_is_noop(b: AudioBufView)
    ensures
        drain_fold(b, Seq::empty()) == b,
{
}

/// Law: exactly one capture timestamp is recorded per encoder frame.
/// As long as the rolling window is not exceeded — the new capture
/// timestamp lies less than the window after the oldest one — a run
/// of chunks appends exactly one copy of the capture timestamp per
/// chunk, whatever the encoder returned.
pub proof fn lemma_one_capture_time_per_chunk(
    b: AudioBufView,
    ts: i64,
    outs: Seq<Option<(i64, Vec<u8>)>>,
)
    requires
        b.inv(),
        b.window >= 1,
        b.times.len() > 0 ==> ts - b.times.first() < b.window,
    ensures
        chunks_fold(b, ts, outs).times =~= b.times + Seq::new(outs.len(), |i: int| ts),
    decreases outs.len(),
{
    if outs.len() == 0 {
        assert(b.times + Seq::new(0, |i: int| ts) =~= b.times);
    } else {
        let b1 = push_time(b, ts);
        assert(b1.times.first() == if b.times.len() > 0 {
            b.times.first()
        } else {
            ts
        });
        assert(b1.times.last() == ts);
        let b2 = chunk_step(b, ts, outs[0]);
        match outs[0] {
            Some(p) => {
                let b1f = AudioBufView { frames: entry_insert(b1.frames, p.0, p.1), ..b1 };
                assert(!b1f.needs_trim());
                assert(b2 == b1f);
                lemma_audio_insert_spec_props(b1, p.0, p.1);
            },
            None => {},
        }
        assert(b2.times == b1.times);
        lemma_one_capture_time_per_chunk(b2, ts, outs.skip(1));
        assert(chunks_fold(b, ts, outs) == chunks_fold(b2, ts, outs.skip(1)));
        assert(b2.times + Seq::new(outs.skip(1).len(), |i: int| ts) =~= b.times + Seq::new(
            outs.len(),
            |i: int| ts,
        ));
    }
}

/// Removes and returns the first `n` elements of `v`.
fn take_front(v: &mut Vec<u32>, n: usize) -> (r: Vec<u32>)
    requires
        n <= old(v)@.len(),
    ensures
        r@ == old(v)@.take(n as int),
        final(v)@ == old(v)@.skip(n as int),
{
    let mut rest = v.split_off(n);
    core::mem::swap(v, &mut rest);
    proof {
        assert(rest@ =~= old(v)@.take(n as int));
        assert(v@ =~= old(v)@.skip(n as int));
    }
    rest
}

/// Feeds an audio encoder with fixed-size frames cut from arbitrary
/// raw sample runs, and keeps the encoded output in a rolling buffer.
pub struct AudioEncoder<E: AudioEncoderImpl> {
    encoder: Option<E>,
    audio_buffer: ShadowCaptureAudioBuffer,
    next_pts: i64,
    leftover_data: Vec<u32>,
    /// Samples per encoder frame, read from the encoder when it is
    /// installed.
    frame_size: usize,
    /// Interleaved channel count, read from the encoder when it is
    /// installed.
    channels: usize,
}

impl<E: AudioEncoderImpl> AudioEncoder<E> {
    /// Whether an encoder is installed.
    pub closed spec fn has_encoder(&self) -> bool {
        self.encoder is Some
    }

    /// The rolling buffer's abstract state.
    pub closed spec fn buf(&self) -> AudioBufView {
        self.audio_buffer@
    }

    /// The presentation timestamp of the next encoder frame.
    pub closed spec fn next_pts_spec(&self) -> i64 {
        self.next_pts
    }

    /// Samples carried over from earlier calls, not yet a whole frame.
    pub closed spec fn leftover(&self) -> Seq<u32> {
        self.leftover_data@
    }

    /// Samples per encoder frame.
    pub closed spec fn frame_size_spec(&self) -> nat {
        self.frame_size as nat
    }

    /// Interleaved channel count.
    pub closed spec fn channels_spec(&self) -> nat {
        self.channels as nat
    }

    pub open spec fn inv(&self) -> bool {
        &&& self.buf().inv()
        &&& self.next_pts_spec() >= 0
    }

    /// Builds the chunker around a freshly opened encoder; the rolling
    /// window spans `max_seconds` of capture time.
    pub fn new_with_encoder(encoder: E, max_seconds: u32) -> (r: Self)
        requires
            max_seconds as int * (ONE_MICROS as int) <= usize::MAX as int,
        ensures
            r.inv(),
            r.has_encoder(),
            r.buf().frames =~= Seq::<(i64, Vec<u8>)>::empty(),
            r.buf().times =~= Seq::<i64>::empty(),
            r.buf().window == max_seconds as int * (ONE_MICROS as int),
            r.next_pts_spec() == 0,
            r.leftover() =~= Seq::<u32>::empty(),
    {
        let frame_size = encoder.frame_size();
        let channels = encoder.channels() as usize;
        proof {
            assert(max_seconds as int * (ONE_MICROS as int) <= 4294967295int * 1000000int)
                by (nonlinear_arith)
                requires
                    max_seconds as int <= 4294967295int,
            ;
        }
        let max_time = max_seconds as usize * ONE_MICROS;
        Self {
            encoder: Some(encoder),
            audio_buffer: ShadowCaptureAudioBuffer::new(max_time),
            next_pts: 0,
            leftover_data: Vec::new(),
            frame_size,
            channels,
        }
    }

    /// Cuts the raw samples, together with what earlier calls left
    /// over, into whole encoder frames; for every frame the capture
    /// timestamp of the raw run is recorded, the frame is sent, and
    /// whatever packet comes back is stored.  A run that does not
    /// split into whole channel groups is rejected untouched.
    #[verifier::loop_isolation(false)]
    pub fn process(&mut self, raw_frame: &RawAudioFrame) -> (r: Result<(), EncoderError>)
        requires
            old(self).inv(),
            old(self).next_pts_spec() + old(self).leftover().len() + raw_frame.samples@.len()
                <= i64::MAX,
        ensures
            final(self).inv(),
            final(self).frame_size_spec() == old(self).frame_size_spec(),
            final(self).channels_spec() == old(self).channels_spec(),
            final(self).has_encoder() == old(self).has_encoder(),
            final(self).buf().window == old(self).buf().window,
            !old(self).has_encoder() ==> ({
                &&& r is Ok
                &&& final(self).buf() == old(self).buf()
                &&& final(self).leftover() == old(self).leftover()
                &&& final(self).next_pts_spec() == old(self).next_pts_spec()
            }),
            old(self).has_encoder() && !samples_valid(
                raw_frame.samples@.len(),
                old(self).channels_spec(),
            ) ==> ({
                &&& r == Err::<(), EncoderError>(EncoderError::InvalidData)
                &&& final(self).buf() == old(self).buf()
                &&& final(self).leftover() == old(self).leftover()
                &&& final(self).next_pts_spec() == old(self).next_pts_spec()
            }),
            old(self).has_encoder() && samples_valid(
                raw_frame.samples@.len(),
                old(self).channels_spec(),
            ) ==> ({
                let combined = old(self).leftover() + raw_frame.samples@;
                let fs = old(self).frame_size_spec();
                let k = chunk_count(combined.len(), fs);
                match r {
                    Ok(_) => {
                        &&& final(self).leftover() == combined.skip((k * fs) as int)
                        &&& final(self).next_pts_spec() == old(self).next_pts_spec() + k * fs
                        &&& exists|outs: Seq<Option<(i64, Vec<u8>)>>|
                            outs.len() == k && final(self).buf() == chunks_fold(
                                old(self).buf(),
                                raw_frame.timestamp,
                                outs,
                            )
                    },
                    Err(e) => {
                        &&& e == EncoderError::Failed
                        &&& exists|outs: Seq<Option<(i64, Vec<u8>)>>|
                            #![trigger chunks_fold(old(self).buf(), raw_frame.timestamp, outs)]
                            outs.len() < k && final(self).leftover() == combined.skip(
                                ((outs.len() + 1) * fs) as int,
                            ) && final(self).next_pts_spec() == old(self).next_pts_spec()
                                + outs.len() * fs && final(self).buf() == push_time(
                                chunks_fold(old(self).buf(), raw_frame.timestamp, outs),
                                raw_frame.timestamp,
                            )
                    },
                }
            }),
    {
        if self.encoder.is_none() {
            return Ok(());
        }
        let mut enc = self.encoder.take().unwrap();
        let total = raw_frame.samples.len();
        if self.channels == 0 || total % self.channels != 0 {
            self.encoder = Some(enc);
            return Err(EncoderError::InvalidData);
        }

        let ghost l0 = self.leftover_data@;
        let mut i: usize = 0;
        while i < raw_frame.samples.len()
            invariant
                0 <= i <= raw_frame.samples@.len(),
                self.leftover_data@ == l0 + raw_frame.samples@.take(i as int),
                self.encoder is None,
                self.audio_buffer == old(self).audio_buffer,
                self.next_pts == old(self).next_pts,
                self.frame_size == old(self).frame_size,
                self.channels == old(self).channels,
            decreases raw_frame.samples@.len() - i,
        {
            self.leftover_data.push(raw_frame.samples[i]);
            proof {
                assert(self.leftover_data@ =~= l0 + raw_frame.samples@.take(i as int + 1));
            }
            i = i + 1;
        }
        let ghost combined = l0 + raw_frame.samples@;
        proof {
            assert(self.leftover_data@ =~= combined);
        }

        let fs = self.frame_size;
        let ghost b0 = self.audio_buffer@;
        let ghost np0 = self.next_pts;
        let ghost ts = raw_frame.timestamp;
        let ghost mut outs: Seq<Option<(i64, Vec<u8>)>> = Seq::empty();
        proof {
            assert(combined.skip(0) =~= combined);
        }
        if fs >= 1 {
            while self.leftover_data.len() >= fs
                invariant
                    fs == old(self).frame_size,
                    fs >= 1,
                    self.frame_size == old(self).frame_size,
                    self.channels == old(self).channels,
                    self.encoder is None,
                    self.audio_buffer@.inv(),
                    self.audio_buffer@ == chunks_fold(b0, ts, outs),
                    self.audio_buffer@.window == b0.window,
                    outs.len() * fs <= combined.len(),
                    self.leftover_data@ == combined.skip((outs.len() * fs) as int),
                    self.next_pts == np0 + outs.len() * fs,
                    np0 + combined.len() <= i64::MAX,
                    np0 >= 0,
                    b0.inv(),
                decreases self.leftover_data@.len(),
            {
                let ghost j = outs.len();
                proof {
                    assert((j + 1) * fs == j * fs + fs) by (nonlinear_arith);
                }
                let chunk = take_front(&mut self.leftover_data, fs);
                self.audio_buffer.insert_capture_time(raw_frame.timestamp);
                proof {
                    assert(self.leftover_data@ =~= combined.skip(((j + 1) * fs) as int));
                    assert(self.audio_buffer@ == push_time(chunks_fold(b0, ts, outs), ts));
                }
                match enc.send_frame(self.next_pts, &chunk) {
                    Ok(_) => {},
                    Err(_) => {
                        proof {
                            assert(outs.len() * fs + fs <= combined.len());
                            assert(outs.len() < combined.len() / (fs as nat))
                                by (nonlinear_arith)
                                requires
                                    fs >= 1,
                                    outs.len() * fs + fs <= combined.len(),
                            ;
                            assert(chunk_count(combined.len(), fs as nat) == combined.len() / (
                            fs as nat));
                            assert(self.audio_buffer@ == push_time(
                                chunks_fold(old(self).buf(), raw_frame.timestamp, outs),
                                raw_frame.timestamp,
                            ));
                        }
                        self.encoder = Some(enc);
                        return Err(EncoderError::Failed);
                    },
                }
                match enc.receive_packet() {
                    Ok(packet) => {
                        let (pts, data) = packet;
                        let ghost dg = data;
                        proof {
                            lemma_audio_insert_spec_props(
                                push_time(chunks_fold(b0, ts, outs), ts),
                                pts,
                                dg,
                            );
                        }
                        self.audio_buffer.insert(pts, data);
                        proof {
                            lemma_chunks_fold_push(b0, ts, outs, Some((pts, dg)));
                            outs = outs.push(Some((pts, dg)));
                        }
                    },
                    Err(_) => {
                        proof {
                            lemma_chunks_fold_push(b0, ts, outs, None);
                            outs = outs.push(None);
                        }
                    },
                }
                proof {
                    assert(j * fs + fs <= combined.len());
                }
                self.next_pts = self.next_pts + fs as i64;
            }
            proof {
                let k = chunk_count(combined.len(), self.frame_size as nat);
                assert(outs.len() == k) by (nonlinear_arith)
                    requires
                        fs >= 1,
                        outs.len() * fs <= combined.len(),
                        combined.len() - outs.len() * fs < fs,
                        k == combined.len() / (fs as nat),
                ;
            }
        } else {
            proof {
                assert(chunk_count(combined.len(), 0) == 0);
                assert(combined.skip(0) =~= combined);
            }
        }
        self.encoder = Some(enc);
        Ok(())
    }

    /// The installed encoder, if any.
    pub fn get_encoder(&self) -> (r: &Option<E>)
        ensures
            r is Some <==> self.has_encoder(),
    {
        &self.encoder
    }

    /// The rolling buffer of encoded packets and capture timestamps.
    pub fn get_buffer(&self) -> (r: &ShadowCaptureAudioBuffer)
        ensures
            r@ == self.buf(),
    {
        &self.audio_buffer
    }

    /// Marks the end of the stream and stores every packet the encoder
    /// still releases.  Pulling is bounded only to guarantee
    /// termination: an encoder cannot hold more packets than frames it
    /// was sent.
    #[verifier::loop_isolation(false)]
    pub fn drain(&mut self) -> (r: Result<(), EncoderError>)
        requires
            old(self).inv(),
        ensures
            final(self).inv(),
            final(self).frame_size_spec() == old(self).frame_size_spec(),
            final(self).channels_spec() == old(self).channels_spec(),
            final(self).has_encoder() == old(self).has_encoder(),
            final(self).leftover() == old(self).leftover(),
            final(self).next_pts_spec() == old(self).next_pts_spec(),
            final(self).buf().window == old(self).buf().window,
            !old(self).has_encoder() ==> r is Ok && final(self).buf() == old(self).buf(),
            old(self).has_encoder() ==> match r {
                Ok(_) => exists|outs: Seq<(i64, Vec<u8>)>|
                    final(self).buf() == drain_fold(old(self).buf(), outs),
                Err(_) => final(self).buf() == old(self).buf(),
            },
    {
        if self.encoder.is_none() {
            return Ok(());
        }
        let mut enc = self.encoder.take().unwrap();
        match enc.send_eof() {
            Ok(_) => {},
            Err(_) => {
                self.encoder = Some(enc);
                return Err(EncoderError::Failed);
            },
        }
        let ghost b0 = self.audio_buffer@;
        let ghost mut outs: Seq<(i64, Vec<u8>)> = Seq::empty();
        let mut budget: usize = usize::MAX;
        let mut done = false;
        while budget > 0 && !done
            invariant
                self.encoder is None,
                self.audio_buffer@.inv(),
                self.audio_buffer@ == drain_fold(b0, outs),
                self.audio_buffer@.window == b0.window,
                self.next_pts == old(self).next_pts,
                self.leftover_data == old(self).leftover_data,
                self.frame_size == old(self).frame_size,
                self.channels == old(self).channels,
            decreases budget, (if done {
                0int
            } else {
                1int
            }),
        {
            match enc.receive_packet() {
                Ok(packet) => {
                    let (pts, data) = packet;
                    let ghost dg = data;
                    proof {
                        lemma_audio_insert_spec_props(drain_fold(b0, outs), pts, dg);
                    }
                    self.audio_buffer.insert(pts, data);
                    proof {
                        lemma_drain_fold_push(b0, outs, (pts, dg));
                        outs = outs.push((pts, dg));
                    }
                    budget = budget - 1;
                },
                Err(_) => {
                    done = true;
                },
            }
        }
        self.encoder = Some(enc);
        Ok(())
    }

    /// Discards the encoder and empties the rolling buffer.
    pub fn drop_encoder(&mut self)
        requires
            old(self).inv(),
        ensures
            final(self).inv(),
            !final(self).has_encoder(),
            final(self).buf() == old(self).buf().reset_spec(),
            final(self).leftover() == old(self).leftover(),
            final(self).next_pts_spec() == old(self).next_pts_spec(),
            final(self).frame_size_spec() == old(self).frame_size_spec(),
            final(self).channels_spec() == old(self).channels_spec(),
    {
        self.encoder = None;
        self.audio_buffer.reset();
    }

    /// Replaces the encoder with a freshly opened one: the buffer is
    /// emptied and presentation timestamps restart at zero.
    pub fn reset_encoder(&mut self, encoder: E)
        requires
            old(self).inv(),
        ensures
            final(self).inv(),
            final(self).has_encoder(),
            final(self).buf() == old(self).buf().reset_spec(),
            final(self).next_pts_spec() == 0,
            final(self).leftover() == old(self).leftover(),
    {
        self.drop_encoder();
        let frame_size = encoder.frame_size();
        let channels = encoder.channels() as usize;
        self.frame_size = frame_size;
        self.channels = channels;
        self.encoder = Some(encoder);
        self.next_pts = 0;
    }
}

} // verus!
