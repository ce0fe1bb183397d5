//! Invariants of the rolling buffers, stated and proved over their
//! abstract states.

use vstd::prelude::*;

use crate::buffer::{AudioBufView, EncodedVideoFrame, VideoBufView};
use crate::mux::{audio_plan, video_plan, MuxPacketView};
use crate::ordered::{
    drop_below, entry_insert, has_key, keys_sorted, lemma_drop_below_props,
    lemma_entry_insert_sorted, lemma_entry_insert_unfold, lemma_sorted_skip,
};

verus! {

/// A strictly increasing sequence of timestamps.
pub open spec fn strictly_increasing(s: Seq<i64>) -> bool {
    forall|i: int, j: int| 0 <= i < j < s.len() ==> #[trigger] s[i] < #[trigger] s[j]
}

/// The DTS values of the keyframes among `frames`, in order.
pub open spec fn kf_keys(frames: Seq<(i64, EncodedVideoFrame)>) -> Seq<i64>
    decreases frames.len(),
{
    if frames.len() == 0 {
        Seq::empty()
    } else if frames[0].1.is_keyframe {
        seq![frames[0].0] + kf_keys(frames.skip(1))
    } else {
        kf_keys(frames.skip(1))
    }
}

/// A video buffer state that arose from feeding an encoder stream:
/// the recorded keyframe list is exactly the keyframes present, and
/// the oldest frame starts a group of pictures.
pub open spec fn stream_wf(v: VideoBufView) -> bool {
    &&& v.kfs == kf_keys(v.frames)
    &&& v.frames.len() > 0 ==> v.frames[0].1.is_keyframe
}

proof fn lemma_kf_keys_concat(a: Seq<(i64, EncodedVideoFrame)>, b: Seq<(i64, EncodedVideoFrame)>)
    ensures
        kf_keys(a + b) =~= kf_keys(a) + kf_keys(b),
    decreases a.len(),
{
    if a.len() == 0 {
        assert(a + b =~= b);
    } else {
        lemma_kf_keys_concat(a.skip(1), b);
        assert((a + b).skip(1) =~= a.skip(1) + b);
        assert((a + b)[0] == a[0]);
    }
}

proof fn lemma_kf_keys_push(s: Seq<(i64, EncodedVideoFrame)>, p: (i64, EncodedVideoFrame))
    ensures
        kf_keys(s.push(p)) =~= kf_keys(s) + if p.1.is_keyframe {
            seq![p.0]
        } else {
            Seq::<i64>::empty()
        },
{
    lemma_kf_keys_concat(s, seq![p]);
    assert(s.push(p) =~= s + seq![p]);
    assert(seq![p].skip(1) =~= Seq::<(i64, EncodedVideoFrame)>::empty());
    assert(kf_keys(seq![p].skip(1)) =~= Seq::<i64>::empty());
    assert(kf_keys(seq![p]) =~= if p.1.is_keyframe {
        seq![p.0]
    } else {
        Seq::<i64>::empty()
    });
}

/// Some entry of `frames` is a keyframe with key `x`.
spec fn kf_witnessed(frames: Seq<(i64, EncodedVideoFrame)>, x: i64) -> bool {
    exists|j: int|
        0 <= j < frames.len() && (#[trigger] frames[j]).0 == x && frames[j].1.is_keyframe
}

/// Every recorded keyframe DTS is the key of a keyframe entry, and the
/// record inherits the strict ordering of the frame keys.
proof fn lemma_kf_keys_members(frames: Seq<(i64, EncodedVideoFrame)>)
    requires
        keys_sorted(frames),
    ensures
        forall|i: int|
            #![trigger kf_keys(frames)[i]]
            0 <= i < kf_keys(frames).len() ==> kf_witnessed(frames, kf_keys(frames)[i]),
        strictly_increasing(kf_keys(frames)),
    decreases frames.len(),
{
    if frames.len() > 0 {
        lemma_sorted_skip(frames, 1);
        lemma_kf_keys_members(frames.skip(1));
        let r = kf_keys(frames);
        let rr = kf_keys(frames.skip(1));
        assert forall|i: int| #![trigger kf_keys(frames)[i]] 0 <= i < kf_keys(frames).len()
            implies kf_witnessed(frames, kf_keys(frames)[i]) by {
            if frames[0].1.is_keyframe && i == 0 {
                assert(frames[0].0 == kf_keys(frames)[0] && frames[0].1.is_keyframe);
            } else {
                let i2: int = if frames[0].1.is_keyframe {
                    i - 1
                } else {
                    i
                };
                assert(0 <= i2 < kf_keys(frames.skip(1)).len());
                assert(kf_keys(frames.skip(1))[i2] == kf_keys(frames)[i]);
                assert(kf_witnessed(frames.skip(1), kf_keys(frames.skip(1))[i2]));
                let j = choose|j: int|
                    0 <= j < frames.skip(1).len() && (#[trigger] frames.skip(1)[j]).0 == kf_keys(
                        frames.skip(1),
                    )[i2] && frames.skip(1)[j].1.is_keyframe;
                assert(frames[j + 1] == frames.skip(1)[j]);
                assert(frames[j + 1].0 == kf_keys(frames)[i] && frames[j + 1].1.is_keyframe);
            }
        }
        assert forall|i: int, j: int| 0 <= i < j < r.len() implies #[trigger] r[i] < #[trigger] r[j] by {
            if frames[0].1.is_keyframe && i == 0 {
                assert(r[j] == rr[j - 1]);
                assert(kf_witnessed(frames.skip(1), kf_keys(frames.skip(1))[j - 1]));
                let m = choose|m: int|
                    0 <= m < frames.skip(1).len() && (#[trigger] frames.skip(1)[m]).0 == kf_keys(
                        frames.skip(1),
                    )[j - 1] && frames.skip(1)[m].1.is_keyframe;
                assert(frames[m + 1].0 == r[j]);
                assert(frames[0].0 < frames[m + 1].0);
            } else {
                let off: int = if frames[0].1.is_keyframe {
                    1
                } else {
                    0
                };
                assert(r[i] == rr[i - off]);
                assert(r[j] == rr[j - off]);
            }
        }
    }
}

/// On a sorted list, `drop_below` splits the list at the first key not
/// below `k`: what is dropped is a prefix of entries with keys below
/// `k`, and what remains is the matching suffix.
proof fn lemma_drop_below_split(s: Seq<(i64, EncodedVideoFrame)>, k: i64)
    requires
        keys_sorted(s),
    ensures
        ({
            let d = drop_below(s, k);
            let m = s.len() - d.len();
            &&& 0 <= m <= s.len()
            &&& d =~= s.skip(m)
            &&& forall|i: int| 0 <= i < m ==> (#[trigger] s[i]).0 < k
        }),
    decreases s.len(),
{
    if s.len() > 0 && s[0].0 < k {
        lemma_sorted_skip(s, 1);
        lemma_drop_below_split(s.skip(1), k);
        let d = drop_below(s, k);
        let m = s.len() - d.len();
        assert(s.skip(1).skip(m - 1) =~= s.skip(m));
        assert forall|i: int| 0 <= i < m implies (#[trigger] s[i]).0 < k by {
            if i > 0 {
                assert(s.skip(1)[i - 1] == s[i]);
            }
        }
    } else {
        assert(drop_below(s, k) =~= s.skip(0));
    }
}

/// Recording a frame preserves the buffer invariant.
pub proof fn lemma_video_raw_insert_inv(v: VideoBufView, ts: i64, f: EncodedVideoFrame)
    requires
        v.inv(),
    ensures
        v.raw_insert(ts, f).inv(),
{
    lemma_entry_insert_sorted(v.frames, ts, f);
    let r = v.raw_insert(ts, f);
    assert forall|i: int|
        0 <= i < r.frames.len() implies r.wmin.unwrap() <= (#[trigger] r.frames[i]).1.pts
            <= r.wmax.unwrap() by {
        if r.frames[i] == (ts, f) {
        } else {
            assert(v.frames.contains(r.frames[i]));
            let j = choose|j: int| 0 <= j < v.frames.len() && v.frames[j] == r.frames[i];
            assert(v.wmin.unwrap() <= v.frames[j].1.pts <= v.wmax.unwrap());
        }
    }
}

/// One eviction preserves the buffer invariant.
pub proof fn lemma_video_trim_once_inv(v: VideoBufView)
    requires
        v.inv(),
        v.kfs.len() >= 2,
    ensures
        v.trim_once().inv(),
{
    lemma_drop_below_props(v.frames, v.kfs[1]);
    crate::buffer::lemma_win_fold_bounds(v.trim_once().frames);
}

/// Trimming to completion preserves the buffer invariant.
pub proof fn lemma_video_trim_inv(v: VideoBufView)
    requires
        v.inv(),
    ensures
        v.trim().inv(),
    decreases v.kfs.len(),
{
    if v.needs_trim() {
        lemma_video_trim_once_inv(v);
        lemma_video_trim_inv(v.trim_once());
    }
}

/// After trimming, eviction no longer fires.
proof fn lemma_video_trim_settled(v: VideoBufView)
    ensures
        !v.trim().needs_trim(),
    decreases v.kfs.len(),
{
    if v.needs_trim() {
        lemma_video_trim_settled(v.trim_once());
    }
}

/// Law: after any insertion into a well-formed video buffer, while at
/// least two keyframes are recorded, any two frames present lie less
/// than the window apart in presentation time.
pub proof fn lemma_video_window_bounded(v: VideoBufView, ts: i64, f: EncodedVideoFrame)
    requires
        v.inv(),
    ensures
        ({
            let r = v.insert_spec(ts, f);
            &&& r.inv()
            &&& r.kfs.len() >= 2 ==> forall|i: int, j: int|
                0 <= i < r.frames.len() && 0 <= j < r.frames.len() ==> (
                #[trigger] r.frames[j]).1.pts - (#[trigger] r.frames[i]).1.pts < r.window
        }),
{
    let r0 = v.raw_insert(ts, f);
    let r = r0.trim();
    lemma_video_raw_insert_inv(v, ts, f);
    lemma_video_trim_inv(r0);
    lemma_video_trim_settled(r0);
    if r.kfs.len() >= 2 {
        assert forall|i: int, j: int|
            0 <= i < r.frames.len() && 0 <= j < r.frames.len() implies (
        #[trigger] r.frames[j]).1.pts - (#[trigger] r.frames[i]).1.pts < r.window by {
            assert(r.wmin is Some);
            assert(r.wmin.unwrap() <= r.frames[i].1.pts <= r.wmax.unwrap());
            assert(r.wmin.unwrap() <= r.frames[j].1.pts <= r.wmax.unwrap());
            assert(r.wmax.unwrap() - r.wmin.unwrap() < r.window);
        }
    }
}

/// One eviction on a stream-formed buffer removes exactly the first
/// group of pictures: the keyframe record drops its head and the
/// frame at the second recorded keyframe becomes the oldest.
#[verifier::rlimit(60)]
proof fn lemma_video_stream_wf_trim_once(v: VideoBufView)
    requires
        v.inv(),
        stream_wf(v),
        v.kfs.len() >= 2,
    ensures
        stream_wf(v.trim_once()),
{
    let stop = v.kfs[1];
    let d = drop_below(v.frames, stop);
    let m = v.frames.len() - d.len();
    lemma_drop_below_split(v.frames, stop);
    lemma_kf_keys_members(v.frames);
    let pre = v.frames.take(m);
    assert(v.frames =~= pre + d);
    lemma_kf_keys_concat(pre, d);
    assert(v.kfs =~= kf_keys(pre) + kf_keys(d));
    lemma_sorted_skip(v.frames, m);
    crate::ordered::lemma_sorted_take(v.frames, m);
    assert(keys_sorted(d));
    lemma_kf_keys_members(d);
    // keys in the dropped prefix lie below the second keyframe
    assert forall|i: int| 0 <= i < pre.len() implies (#[trigger] pre[i]).0 < stop by {
        assert(pre[i] == v.frames[i]);
    }
    // keys in the remainder lie at or above it
    lemma_drop_below_props(v.frames, stop);
    let pn = kf_keys(pre).len() as int;
    assert(kf_keys(pre) =~= v.kfs.take(pn));
    assert(kf_keys(d) =~= v.kfs.skip(pn));
    // the prefix holds exactly one recorded keyframe: the first one
    lemma_kf_keys_members(pre);
    if pn >= 2 {
        assert(kf_keys(pre)[1] == v.kfs[1]);
        assert(kf_witnessed(pre, kf_keys(pre)[1]));
        let j = choose|j: int|
            0 <= j < pre.len() && (#[trigger] pre[j]).0 == kf_keys(pre)[1]
                && pre[j].1.is_keyframe;
        assert(pre[j].0 < stop);
        assert(false);
    }
    if pn == 0 {
        // then the first recorded keyframe would sit in the remainder,
        // whose keys all reach the second recorded keyframe
        assert(kf_keys(d)[0] == v.kfs[0]);
        assert(kf_witnessed(d, kf_keys(d)[0]));
        let j = choose|j: int|
            0 <= j < d.len() && (#[trigger] d[j]).0 == kf_keys(d)[0] && d[j].1.is_keyframe;
        assert(d[j].0 >= stop);
        assert(v.kfs[0] < v.kfs[1]) by {
            lemma_kf_keys_members(v.frames);
        }
        assert(false);
    }
    assert(pn == 1);
    assert(kf_keys(d) =~= v.kfs.skip(1));
    // the oldest remaining frame is the second recorded keyframe
    if d.len() > 0 {
        assert(kf_keys(d).len() == v.kfs.len() - 1 >= 1);
        assert(kf_keys(d)[0] == v.kfs[1]);
        assert(kf_witnessed(d, kf_keys(d)[0]));
        let j = choose|j: int|
            0 <= j < d.len() && (#[trigger] d[j]).0 == kf_keys(d)[0] && d[j].1.is_keyframe;
        assert(d[0].0 >= stop);
        if j > 0 {
            assert(d[0].0 < d[j].0);
            assert(false);
        }
        assert(d[0].1.is_keyframe);
    }
}

/// Trimming to completion preserves stream well-formedness.
proof fn lemma_video_stream_wf_trim(v: VideoBufView)
    requires
        v.inv(),
        stream_wf(v),
    ensures
        stream_wf(v.trim()),
    decreases v.kfs.len(),
{
    if v.needs_trim() {
        lemma_video_stream_wf_trim_once(v);
        lemma_video_trim_once_inv(v);
        lemma_video_stream_wf_trim(v.trim_once());
    }
}

/// Law: feeding the video buffer in stream order — strictly increasing
/// DTS, starting with a keyframe — keeps the recorded keyframes in
/// step with the frames, and the oldest frame present is always a
/// keyframe, so the smallest DTS present is a keyframe DTS.
pub proof fn lemma_video_stream_wf_insert(v: VideoBufView, ts: i64, f: EncodedVideoFrame)
    requires
        v.inv(),
        stream_wf(v),
        v.frames.len() > 0 ==> ts > v.frames.last().0,
        v.frames.len() == 0 ==> f.is_keyframe,
    ensures
        ({
            let r = v.insert_spec(ts, f);
            &&& r.inv()
            &&& stream_wf(r)
            &&& r.frames.len() > 0 ==> r.frames[0].1.is_keyframe
            &&& r.frames.len() > 0 && r.kfs.len() > 0 ==> r.kfs[0] == r.frames[0].0
        }),
{
    let r0 = v.raw_insert(ts, f);
    lemma_video_raw_insert_inv(v, ts, f);
    // appending past the largest key is a plain push
    assert forall|j: int| 0 <= j < v.frames.len() implies (#[trigger] v.frames[j].0) < ts by {
        if j < v.frames.len() - 1 {
            assert(v.frames[j].0 < v.frames[v.frames.len() - 1].0);
        }
    }
    lemma_entry_insert_unfold(v.frames, ts, f, v.frames.len() as int);
    assert(v.frames.take(v.frames.len() as int) =~= v.frames);
    assert(v.frames.skip(v.frames.len() as int) =~= Seq::<(i64, EncodedVideoFrame)>::empty());
    assert(r0.frames =~= v.frames.push((ts, f)));
    lemma_kf_keys_push(v.frames, (ts, f));
    if f.is_keyframe {
        assert(r0.kfs =~= kf_keys(v.frames) + seq![ts]);
    } else {
        assert(r0.kfs =~= kf_keys(v.frames) + Seq::<i64>::empty());
    }
    assert(r0.kfs =~= kf_keys(r0.frames));
    if v.frames.len() > 0 {
        assert(r0.frames[0] == v.frames[0]);
    } else {
        assert(r0.frames[0] == (ts, f));
    }
    assert(stream_wf(r0));
    lemma_video_stream_wf_trim(r0);
    lemma_video_trim_inv(r0);
    let r = v.insert_spec(ts, f);
    if r.frames.len() > 0 && r.kfs.len() > 0 {
        assert(r.kfs == kf_keys(r.frames));
        assert(r.frames[0].1.is_keyframe);
        assert(kf_keys(r.frames)[0] == r.frames[0].0);
    }
}

/// Law: starting from a state where the packet list and the capture
/// time list have equal length, inserting one packet under a fresh
/// timestamp and then recording its capture time restores equal
/// length — the two lists grow and shrink in lock-step.
pub proof fn lemma_audio_paired_insert_balanced(
    v: AudioBufView,
    pts: i64,
    data: Vec<u8>,
    t: i64,
)
    requires
        v.inv(),
        v.frames.len() == v.times.len(),
        !has_key(v.frames, pts),
    ensures
        ({
            let after = AudioBufView {
                times: v.insert_spec(pts, data).times.push(t),
                ..v.insert_spec(pts, data)
            };
            after.frames.len() == after.times.len()
        }),
{
    lemma_entry_insert_sorted(v.frames, pts, data);
    let mid = AudioBufView { frames: entry_insert(v.frames, pts, data), ..v };
    assert(mid.frames.len() == mid.times.len() + 1);
    lemma_audio_trim_keeps_excess(mid);
}

/// Trimming a state whose packet list is one longer than its capture
/// time list keeps that excess of exactly one.
proof fn lemma_audio_trim_keeps_excess(v: AudioBufView)
    requires
        v.frames.len() == v.times.len() + 1,
    ensures
        v.trim().frames.len() == v.trim().times.len() + 1,
    decreases v.times.len(),
{
    if v.needs_trim() && v.frames.len() > 0 {
        lemma_audio_trim_keeps_excess(v.trim_step());
    }
}

/// Law: planning a save of a stream-formed video buffer that holds a
/// keyframe writes at least one packet, and the first written packet
/// is a keyframe with presentation time zero.
pub proof fn lemma_mux_first_video_packet(v: VideoBufView, astart: i64)
    requires
        v.inv(),
        stream_wf(v),
        v.kfs.len() > 0,
    ensures
        ({
            let plan = video_plan(v.frames, 0, v.kfs.last(), astart, None);
            &&& plan.len() > 0
            &&& plan[0].pts == 0
            &&& plan[0].key
        }),
{
    if v.frames.len() == 0 {
        assert(v.kfs.len() == 0);
    }
    assert(v.frames[0].1.is_keyframe);
    assert(v.kfs[0] == v.frames[0].0);
    lemma_kf_keys_members(v.frames);
    assert(v.kfs[0] <= v.kfs.last());
    let plan = video_plan(v.frames, 0, v.kfs.last(), astart, None);
    assert(plan[0].pts == v.frames[0].1.pts - v.frames[0].1.pts);
}

/// Some frame from index `i` on was captured inside `[lo, hi]` and
/// carries the bytes of the packet `p`.
pub open spec fn clipped_source(
    af: Seq<(i64, Vec<u8>)>,
    ts: Seq<i64>,
    lo: i64,
    hi: i64,
    p: MuxPacketView,
    i: int,
) -> bool {
    exists|j: int|
        i <= j < af.len() && lo <= #[trigger] ts[j] <= hi && p.data == af[j].1@
}

/// Law: every audio packet that the save plan writes comes from a
/// frame captured no earlier than the video rebasing origin and no
/// later than the presentation time of the last written video frame —
/// the audio stream is clipped to the video.
pub proof fn lemma_mux_audio_clipped_to_video(
    af: Seq<(i64, Vec<u8>)>,
    ts: Seq<i64>,
    i: int,
    newest_v: i64,
    vbase: i64,
    base: Option<i64>,
)
    requires
        ts.len() == af.len(),
        0 <= i,
    ensures
        forall|n: int|
            #![trigger audio_plan(af, ts, i, newest_v, vbase, base)[n]]
            0 <= n < audio_plan(af, ts, i, newest_v, vbase, base).len() ==> clipped_source(
                af,
                ts,
                vbase,
                newest_v,
                audio_plan(af, ts, i, newest_v, vbase, base)[n],
                i,
            ),
    decreases af.len() - i,
{
    let plan = audio_plan(af, ts, i, newest_v, vbase, base);
    if i >= af.len() || ts[i] > newest_v {
    } else if ts[i] < vbase {
        lemma_mux_audio_clipped_to_video(af, ts, i + 1, newest_v, vbase, base);
        assert forall|n: int|
            0 <= n < plan.len() implies clipped_source(af, ts, vbase, newest_v, plan[n], i) by {
            assert(clipped_source(
                af,
                ts,
                vbase,
                newest_v,
                audio_plan(af, ts, i + 1, newest_v, vbase, base)[n],
                i + 1,
            ));
        }
    } else {
        let b = match base {
            Some(b) => b,
            None => af[i].0,
        };
        lemma_mux_audio_clipped_to_video(af, ts, i + 1, newest_v, vbase, Some(b));
        assert forall|n: int|
            0 <= n < plan.len() implies clipped_source(af, ts, vbase, newest_v, plan[n], i) by {
            if n == 0 {
                assert(vbase <= ts[i] <= newest_v && plan[0].data == af[i].1@);
            } else {
                assert(plan[n] == audio_plan(af, ts, i + 1, newest_v, vbase, Some(b))[n - 1]);
                assert(clipped_source(
                    af,
                    ts,
                    vbase,
                    newest_v,
                    audio_plan(af, ts, i + 1, newest_v, vbase, Some(b))[n - 1],
                    i + 1,
                ));
            }
        }
    }
}

/// Law: a reset empties the video buffer, so a second reset changes
/// nothing.
pub proof fn lemma_video_reset_idempotent(v: VideoBufView)
    ensures
        v.reset_spec().frames.len() == 0,
        v.reset_spec().kfs.len() == 0,
        v.reset_spec().reset_spec() == v.reset_spec(),
{
    assert(v.reset_spec().reset_spec() =~~= v.reset_spec());
}

/// Law: a reset empties the audio buffer, so a second reset changes
/// nothing.
pub proof fn lemma_audio_reset_idempotent(v: AudioBufView)
    ensures
        v.reset_spec().frames.len() == 0,
        v.reset_spec().times.len() == 0,
        v.reset_spec().reset_spec() == v.reset_spec(),
{
    assert(v.reset_spec().reset_spec() =~~= v.reset_spec());
}

} // verus!
