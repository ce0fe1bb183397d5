//! Planning of the final container write.
//!
//! Saving a clip turns the two rolling buffers into an ordered list of
//! packets for one video and one audio stream: the video is cut at the
//! last complete group of pictures, both streams are rebased so the
//! first written video packet has presentation time zero, and leading
//! video or audio that would leave the streams misaligned is skipped.
//! The writing itself — container, header, trailer — is left to the
//! caller; this module fixes exactly which packets are written and
//! with which timestamps.

use vstd::prelude::*;

use crate::buffer::{EncodedVideoFrame, ShadowCaptureAudioBuffer, ShadowCaptureVideoBuffer};

verus! {

/// One packet of the planned file: rebased presentation and decoding
/// timestamps and the encoded bytes.
pub struct MuxPacket {
    pub data: Vec<u8>,
    pub pts: i64,
    pub dts: i64,
    pub is_keyframe: bool,
}

/// Abstract value of a planned packet.
#[verifier::ext_equal]
pub ghost struct MuxPacketView {
    pub data: Seq<u8>,
    pub pts: int,
    pub dts: int,
    pub key: bool,
}

impl View for MuxPacket {
    type V = MuxPacketView;

    closed spec fn view(&self) -> MuxPacketView {
        MuxPacketView {
            data: self.data@,
            pts: self.pts as int,
            dts: self.dts as int,
            key: self.is_keyframe,
        }
    }
}

/// The packet views of a packet vector.
pub open spec fn plan_views(s: Seq<MuxPacket>) -> Seq<MuxPacketView> {
    s.map_values(|p: MuxPacket| p@)
}

/// The planned packets of both streams, in write order.
pub struct MuxPlan {
    pub video: Vec<MuxPacket>,
    pub audio: Vec<MuxPacket>,
}

/// Why no plan could be built.
#[derive(Debug, PartialEq, Eq, Structural)]
pub enum MuxError {
    /// The video buffer holds no keyframe, so no complete group of
    /// pictures can be cut.
    NoKeyframe,
    /// The audio buffer holds no capture timestamp, so the streams
    /// cannot be aligned.
    NoAudio,
}

/// Whether the video frame `(dts, f)` is written: it must lie in the
/// cut (up to the last keyframe), and a non-keyframe before the start
/// of the audio is skipped to tighten alignment.
pub open spec fn video_written(dts: i64, f: EncodedVideoFrame, cutoff: i64, astart: i64) -> bool {
    dts <= cutoff && (f.is_keyframe || f.pts >= astart)
}

/// The video packets emitted from index `i` on, given the rebasing
/// origin chosen so far (`None` until the first written frame, whose
/// presentation time becomes the origin).
pub open spec fn video_plan(
    fs: Seq<(i64, EncodedVideoFrame)>,
    i: int,
    cutoff: i64,
    astart: i64,
    base: Option<i64>,
) -> Seq<MuxPacketView>
    decreases fs.len() - i,
{
    if i < 0 || i >= fs.len() {
        Seq::empty()
    } else {
        let dts = fs[i].0;
        let f = fs[i].1;
        if !video_written(dts, f, cutoff, astart) {
            video_plan(fs, i + 1, cutoff, astart, base)
        } else {
            let b = match base {
                Some(b) => b,
                None => f.pts,
            };
            seq![
                MuxPacketView { data: f.data@, pts: f.pts - b, dts: dts - b, key: f.is_keyframe },
            ] + video_plan(fs, i + 1, cutoff, astart, Some(b))
        }
    }
}

/// The rebasing origin after walking the video from index `i`.
pub open spec fn video_base(
    fs: Seq<(i64, EncodedVideoFrame)>,
    i: int,
    cutoff: i64,
    astart: i64,
    base: Option<i64>,
) -> Option<i64>
    decreases fs.len() - i,
{
    if i < 0 || i >= fs.len() {
        base
    } else {
        let dts = fs[i].0;
        let f = fs[i].1;
        if !video_written(dts, f, cutoff, astart) {
            video_base(fs, i + 1, cutoff, astart, base)
        } else {
            let b = match base {
                Some(b) => b,
                None => f.pts,
            };
            video_base(fs, i + 1, cutoff, astart, Some(b))
        }
    }
}

/// The presentation time of the last written video frame, walking from
/// index `i` with `cur` written so far (zero before any write).
pub open spec fn video_newest(
    fs: Seq<(i64, EncodedVideoFrame)>,
    i: int,
    cutoff: i64,
    astart: i64,
    cur: i64,
) -> i64
    decreases fs.len() - i,
{
    if i < 0 || i >= fs.len() {
        cur
    } else {
        let dts = fs[i].0;
        let f = fs[i].1;
        if !video_written(dts, f, cutoff, astart) {
            video_newest(fs, i + 1, cutoff, astart, cur)
        } else {
            video_newest(fs, i + 1, cutoff, astart, f.pts)
        }
    }
}

/// The audio packets emitted from index `i` on.  The walk stops at the
/// first frame captured after the last written video frame; a frame
/// captured before the video origin is skipped; the presentation time
/// of the first accepted frame becomes the audio rebasing origin.
pub open spec fn audio_plan(
    af: Seq<(i64, Vec<u8>)>,
    ts: Seq<i64>,
    i: int,
    newest_v: i64,
    vbase: i64,
    base: Option<i64>,
) -> Seq<MuxPacketView>
    decreases af.len() - i,
{
    if i < 0 || i >= af.len() {
        Seq::empty()
    } else if ts[i] > newest_v {
        Seq::empty()
    } else if ts[i] < vbase {
        audio_plan(af, ts, i + 1, newest_v, vbase, base)
    } else {
        let b = match base {
            Some(b) => b,
            None => af[i].0,
        };
        seq![
            MuxPacketView { data: af[i].1@, pts: af[i].0 - b, dts: af[i].0 - b, key: false },
        ] + audio_plan(af, ts, i + 1, newest_v, vbase, Some(b))
    }
}

/// The video rebasing origin of a save, or zero when nothing is
/// written.
pub open spec fn spec_video_base(fs: Seq<(i64, EncodedVideoFrame)>, cutoff: i64, astart: i64) -> i64 {
    match video_base(fs, 0, cutoff, astart, None) {
        Some(b) => b,
        None => 0,
    }
}

/// The decimal digit character for a value below ten.
pub open spec fn digit_char_spec(d: nat) -> char {
    ((d + 48) as u8) as char
}

/// The decimal digit characters of `n`, most significant first.
pub open spec fn dec_digits(n: nat) -> Seq<char>
    decreases n,
{
    if n < 10 {
        seq![digit_char_spec(n)]
    } else {
        dec_digits(n / 10).push(digit_char_spec(n % 10))
    }
}

/// One decimal digit as a string slice.
fn digit_str(d: u8) -> (r: &'static str)
    requires
        d < 10,
    ensures
        r@ =~= seq![digit_char_spec(d as nat)],
{
    proof {
        reveal_strlit("0");
        reveal_strlit("1");
        reveal_strlit("2");
        reveal_strlit("3");
        reveal_strlit("4");
        reveal_strlit("5");
        reveal_strlit("6");
        reveal_strlit("7");
        reveal_strlit("8");
        reveal_strlit("9");
    }
    match d {
        0 => "0",
        1 => "1",
        2 => "2",
        3 => "3",
        4 => "4",
        5 => "5",
        6 => "6",
        7 => "7",
        8 => "8",
        _ => "9",
    }
}

/// Appends the decimal rendering of `n`.
fn append_decimal(s: &mut String, n: u64)
    ensures
        final(s)@ == old(s)@ + dec_digits(n as nat),
    decreases n,
{
    if n < 10 {
        s.append(digit_str(n as u8));
    } else {
        append_decimal(s, n / 10);
        s.append(digit_str((n % 10) as u8));
        proof {
            assert(old(s)@ + dec_digits(n as nat) =~= (old(s)@ + dec_digits((n / 10) as nat)).push(
                digit_char_spec((n % 10) as nat),
            ));
            assert((old(s)@ + dec_digits((n / 10) as nat)).push(digit_char_spec((n % 10) as nat))
                =~= (old(s)@ + dec_digits((n / 10) as nat)) + seq![
                digit_char_spec((n % 10) as nat),
            ]);
        }
    }
}

/// The name under which a clip is saved: the save's Unix timestamp in
/// seconds between a fixed prefix and the container suffix.
pub fn clip_filename(unix_seconds: i64) -> (r: String)
    requires
        unix_seconds >= 0,
    ensures
        r@ == "clip_"@ + dec_digits(unix_seconds as nat) + ".mp4"@,
{
    let mut s = String::from_str("clip_");
    append_decimal(&mut s, unix_seconds as u64);
    let r = s.concat(".mp4");
    proof {
        assert(r@ =~= "clip_"@ + dec_digits(unix_seconds as nat) + ".mp4"@);
    }
    r
}

/// Copies encoded bytes for a planned packet.
fn copy_bytes(src: &Vec<u8>) -> (r: Vec<u8>)
    ensures
        r@ == src@,
{
    let mut out: Vec<u8> = Vec::new();
    let mut i: usize = 0;
    while i < src.len()
        invariant
            0 <= i <= src@.len(),
            out@ =~= src@.take(i as int),
        decreases src@.len() - i,
    {
        out.push(src[i]);
        proof {
            assert(out@ =~= src@.take(i as int + 1));
        }
        i = i + 1;
    }
    proof {
        assert(src@.take(src@.len() as int) =~= src@);
    }
    out
}

/// Builds the packet plan for saving the two rolling buffers into one
/// file: video cut at the last complete group of pictures, both
/// streams rebased to the first written video frame, audio clipped to
/// the video length.
pub fn save_plan(video: &ShadowCaptureVideoBuffer, audio: &ShadowCaptureAudioBuffer) -> (r: Result<
    MuxPlan,
    MuxError,
>)
    requires
        video.inv(),
        audio.inv(),
        audio@.times.len() == audio@.frames.len(),
        forall|i: int|
            0 <= i < video@.frames.len() ==> (#[trigger] video@.frames[i]).0 >= 0
                && video@.frames[i].1.pts >= 0,
        forall|i: int| 0 <= i < audio@.frames.len() ==> (#[trigger] audio@.frames[i]).0 >= 0,
    ensures
        match r {
            Err(MuxError::NoKeyframe) => video@.kfs.len() == 0,
            Err(MuxError::NoAudio) => video@.kfs.len() > 0 && audio@.times.len() == 0,
            Ok(plan) => {
                let cutoff = video@.kfs.last();
                let astart = audio@.times[0];
                let vbase = spec_video_base(video@.frames, cutoff, astart);
                let newest = video_newest(video@.frames, 0, cutoff, astart, 0);
                &&& video@.kfs.len() > 0
                &&& audio@.times.len() > 0
                &&& plan_views(plan.video@) == video_plan(video@.frames, 0, cutoff, astart, None)
                &&& plan_views(plan.audio@) == audio_plan(
                    audio@.frames,
                    audio@.times,
                    0,
                    newest,
                    vbase,
                    None,
                )
            },
        },
{
    let cutoff = match video.get_last_gop_start() {
        Some(dts) => dts,
        None => {
            return Err(MuxError::NoKeyframe);
        },
    };
    let times = audio.get_capture_times();
    if times.len() == 0 {
        return Err(MuxError::NoAudio);
    }
    let astart = times[0];

    let frames = video.get_frames();
    let ghost fs = video@.frames;
    let mut vout: Vec<MuxPacket> = Vec::new();
    let mut base_set = false;
    let mut base: i64 = 0;
    let mut newest: i64 = 0;
    let mut idx: usize = 0;
    while idx < frames.len()
        invariant
            0 <= idx <= fs.len(),
            frames@ == fs,
            forall|i: int| 0 <= i < fs.len() ==> (#[trigger] fs[i]).0 >= 0 && fs[i].1.pts >= 0,
            base_set ==> base >= 0,
            !base_set ==> base == 0,
            newest >= 0,
            video_plan(fs, 0, cutoff, astart, None) == plan_views(vout@) + video_plan(
                fs,
                idx as int,
                cutoff,
                astart,
                if base_set {
                    Some(base)
                } else {
                    None
                },
            ),
            video_base(fs, 0, cutoff, astart, None) == video_base(
                fs,
                idx as int,
                cutoff,
                astart,
                if base_set {
                    Some(base)
                } else {
                    None
                },
            ),
            video_newest(fs, 0, cutoff, astart, 0) == video_newest(
                fs,
                idx as int,
                cutoff,
                astart,
                newest,
            ),
        decreases fs.len() - idx,
    {
        let dts = frames[idx].0;
        let f = &frames[idx].1;
        let written = dts <= cutoff && (f.is_keyframe || f.pts >= astart);
        if written {
            if !base_set {
                base = f.pts;
                base_set = true;
            }
            let pkt = MuxPacket {
                data: copy_bytes(&f.data),
                pts: f.pts - base,
                dts: dts - base,
                is_keyframe: f.is_keyframe,
            };
            proof {
                assert(pkt@ =~~= (MuxPacketView {
                    data: fs[idx as int].1.data@,
                    pts: fs[idx as int].1.pts - base,
                    dts: fs[idx as int].0 - base,
                    key: fs[idx as int].1.is_keyframe,
                }));
            }
            let ghost vout_before = vout@;
            vout.push(pkt);
            newest = f.pts;
            proof {
                assert(plan_views(vout@) =~= plan_views(vout_before).push(pkt@));
            }
        }
        idx = idx + 1;
    }
    proof {
        assert(video_plan(fs, fs.len() as int, cutoff, astart, if base_set {
            Some(base)
        } else {
            None
        }) =~= Seq::<MuxPacketView>::empty());
        assert(plan_views(vout@) + Seq::<MuxPacketView>::empty() =~= plan_views(vout@));
    }

    let afr = audio.get_frames();
    let ghost afs = audio@.frames;
    let ghost ats = audio@.times;
    let mut aout: Vec<MuxPacket> = Vec::new();
    let mut abase_set = false;
    let mut abase: i64 = 0;
    let mut aidx: usize = 0;
    let mut stopped = false;
    while aidx < afr.len() && !stopped
        invariant
            0 <= aidx <= afs.len(),
            afr@ == afs,
            times@ == ats,
            ats.len() == afs.len(),
            forall|i: int| 0 <= i < afs.len() ==> (#[trigger] afs[i]).0 >= 0,
            abase_set ==> abase >= 0,
            audio_plan(afs, ats, 0, newest, base, None) == plan_views(aout@) + if stopped {
                Seq::<MuxPacketView>::empty()
            } else {
                audio_plan(
                    afs,
                    ats,
                    aidx as int,
                    newest,
                    base,
                    if abase_set {
                        Some(abase)
                    } else {
                        None
                    },
                )
            },
        decreases afs.len() - aidx, 1int - if stopped {
            1int
        } else {
            0int
        },
    {
        let ct = times[aidx];
        if ct > newest {
            stopped = true;
        } else if ct < base {
            aidx = aidx + 1;
        } else {
            if !abase_set {
                abase = afr[aidx].0;
                abase_set = true;
            }
            let pkt = MuxPacket {
                data: copy_bytes(&afr[aidx].1),
                pts: afr[aidx].0 - abase,
                dts: afr[aidx].0 - abase,
                is_keyframe: false,
            };
            proof {
                assert(pkt@ =~~= (MuxPacketView {
                    data: afs[aidx as int].1@,
                    pts: afs[aidx as int].0 - abase,
                    dts: afs[aidx as int].0 - abase,
                    key: false,
                }));
            }
            let ghost aout_before = aout@;
            aout.push(pkt);
            proof {
                assert(plan_views(aout@) =~= plan_views(aout_before).push(pkt@));
            }
            aidx = aidx + 1;
        }
    }
    proof {
        if !stopped {
            assert(audio_plan(afs, ats, afs.len() as int, newest, base, if abase_set {
                Some(abase)
            } else {
                None
            }) =~= Seq::<MuxPacketView>::empty());
        }
        assert(plan_views(aout@) + Seq::<MuxPacketView>::empty() =~= plan_views(aout@));
    }

    Ok(MuxPlan { video: vout, audio: aout })
}

} // verus!
