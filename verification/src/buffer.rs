//! Rolling buffers for encoded media.
//!
//! The video buffer keeps a DTS-ordered window of encoded frames and
//! trims whole groups of pictures once the presentation-time span
//! reaches the configured window.  The audio buffer keeps a PTS-ordered
//! window of encoded packets next to the list of capture timestamps and
//! trims both heads in lock-step once the capture-time span reaches the
//! window.

use vstd::prelude::*;

use crate::ordered::{
    drop_below, entry_insert, keys_sorted, lemma_drop_below_props, lemma_entry_insert_sorted,
    lemma_sorted_skip, vec_drop_below, vec_entry_insert,
};

verus! {

/// An encoded video packet: opaque bytes plus its presentation and
/// decoding timestamps (microseconds) and whether it starts a group of
/// pictures.
pub struct EncodedVideoFrame {
    pub data: Vec<u8>,
    pub pts: i64,
    pub dts: i64,
    pub is_keyframe: bool,
}

/// An encoded audio packet: opaque bytes, its presentation timestamp in
/// the encoder's sample time base, and the wall-clock capture timestamp
/// of the raw audio it came from (microseconds).
pub struct EncodedAudioFrame {
    pub data: Vec<u8>,
    pub pts: i64,
    pub timestamp: i64,
}

/// The smaller of an optional running minimum and a new time.
pub open spec fn opt_min_insert(o: Option<i64>, t: i64) -> Option<i64> {
    match o {
        Some(mn) => Some(
            if t < mn {
                t
            } else {
                mn
            },
        ),
        None => Some(t),
    }
}

/// The larger of an optional running maximum and a new time.
pub open spec fn opt_max_insert(o: Option<i64>, t: i64) -> Option<i64> {
    match o {
        Some(mx) => Some(
            if t > mx {
                t
            } else {
                mx
            },
        ),
        None => Some(t),
    }
}

/// Folds the presentation timestamps of `frames` into a running
/// minimum and maximum.
pub open spec fn win_fold(w: (Option<i64>, Option<i64>), frames: Seq<(i64, EncodedVideoFrame)>) -> (
    Option<i64>,
    Option<i64>,
)
    decreases frames.len(),
{
    if frames.len() == 0 {
        w
    } else {
        win_fold(
            (opt_min_insert(w.0, frames[0].1.pts), opt_max_insert(w.1, frames[0].1.pts)),
            frames.skip(1),
        )
    }
}

/// Starting from nothing, the fold yields `None` exactly on the empty
/// list and otherwise a pair of attained bounds on the presentation
/// timestamps.
pub proof fn lemma_win_fold_bounds(frames: Seq<(i64, EncodedVideoFrame)>)
    ensures
        frames.len() == 0 ==> win_fold((None, None), frames) == (None::<i64>, None::<i64>),
        frames.len() > 0 ==> {
            let w = win_fold((None, None), frames);
            &&& w.0 is Some
            &&& w.1 is Some
            &&& w.0.unwrap() <= w.1.unwrap()
            &&& forall|i: int|
                0 <= i < frames.len() ==> w.0.unwrap() <= (#[trigger] frames[i]).1.pts
                    <= w.1.unwrap()
            &&& exists|i: int| 0 <= i < frames.len() && (#[trigger] frames[i]).1.pts == w.0.unwrap()
            &&& exists|i: int| 0 <= i < frames.len() && (#[trigger] frames[i]).1.pts == w.1.unwrap()
        },
{
    lemma_win_fold_general((None, None), frames);
    if frames.len() > 0 {
        let w = win_fold((None, None), frames);
        assert(w.0.unwrap() <= frames[0].1.pts <= w.1.unwrap());
    }
}

/// General fold characterisation: the result tightens the starting
/// bounds with the timestamps of the frames.
proof fn lemma_win_fold_general(w: (Option<i64>, Option<i64>), frames: Seq<(i64, EncodedVideoFrame)>)
    ensures
        frames.len() == 0 ==> win_fold(w, frames) == w,
        frames.len() > 0 ==> {
            let r = win_fold(w, frames);
            &&& r.0 is Some
            &&& r.1 is Some
            &&& forall|i: int|
                0 <= i < frames.len() ==> r.0.unwrap() <= (#[trigger] frames[i]).1.pts
                    <= r.1.unwrap()
            &&& (w.0 is Some ==> r.0.unwrap() <= w.0.unwrap())
            &&& (w.1 is Some ==> r.1.unwrap() >= w.1.unwrap())
            &&& ((w.0 is Some && r.0.unwrap() == w.0.unwrap()) || exists|i: int|
                0 <= i < frames.len() && (#[trigger] frames[i]).1.pts == r.0.unwrap())
            &&& ((w.1 is Some && r.1.unwrap() == w.1.unwrap()) || exists|i: int|
                0 <= i < frames.len() && (#[trigger] frames[i]).1.pts == r.1.unwrap())
        },
    decreases frames.len(),
{
    if frames.len() > 0 {
        let w1 = (opt_min_insert(w.0, frames[0].1.pts), opt_max_insert(w.1, frames[0].1.pts));
        lemma_win_fold_general(w1, frames.skip(1));
        let r = win_fold(w, frames);
        if frames.len() == 1 {
            assert(frames.skip(1).len() == 0);
            assert(r == w1);
            assert(frames[0].1.pts == r.0.unwrap() || r.0 == w.0);
            assert(frames[0].1.pts == r.1.unwrap() || r.1 == w.1);
        } else {
            assert forall|i: int| 0 <= i < frames.len() implies r.0.unwrap() <= (
            #[trigger] frames[i]).1.pts <= r.1.unwrap() by {
                if i == 0 {
                    assert(r.0.unwrap() <= w1.0.unwrap());
                    assert(r.1.unwrap() >= w1.1.unwrap());
                } else {
                    assert(frames.skip(1)[i - 1] == frames[i]);
                }
            }
            if r.0.unwrap() != w1.0.unwrap() {
                let i = choose|i: int|
                    0 <= i < frames.skip(1).len() && (#[trigger] frames.skip(1)[i]).1.pts
                        == r.0.unwrap();
                assert(frames[i + 1].1.pts == r.0.unwrap());
            } else {
                if w.0 is None || w1.0.unwrap() != w.0.unwrap() {
                    assert(frames[0].1.pts == w1.0.unwrap());
                }
            }
            if r.1.unwrap() != w1.1.unwrap() {
                let i = choose|i: int|
                    0 <= i < frames.skip(1).len() && (#[trigger] frames.skip(1)[i]).1.pts
                        == r.1.unwrap();
                assert(frames[i + 1].1.pts == r.1.unwrap());
            } else {
                if w.1 is None || w1.1.unwrap() != w.1.unwrap() {
                    assert(frames[0].1.pts == w1.1.unwrap());
                }
            }
        }
    }
}

/// Running minimum and maximum over the presentation timestamps that a
/// rolling video buffer has seen since its last trim or reset.
pub struct TimeWindow {
    min_time: Option<i64>,
    max_time: Option<i64>,
}

impl TimeWindow {
    /// The tracked minimum.
    pub closed spec fn min_spec(self) -> Option<i64> {
        self.min_time
    }

    /// The tracked maximum.
    pub closed spec fn max_spec(self) -> Option<i64> {
        self.max_time
    }

    /// Either no time was inserted yet, or both bounds are present and
    /// ordered.
    pub open spec fn wf(self) -> bool {
        match (self.min_spec(), self.max_spec()) {
            (Some(mn), Some(mx)) => mn <= mx,
            (None, None) => true,
            _ => false,
        }
    }

    /// True when both bounds are present and at least `limit` apart.
    pub open spec fn spec_span_at_least(self, limit: int) -> bool {
        match (self.min_spec(), self.max_spec()) {
            (Some(mn), Some(mx)) => mx - mn >= limit,
            _ => false,
        }
    }

    pub fn new() -> (r: Self)
        ensures
            r.min_spec() is None,
            r.max_spec() is None,
    {
        Self { min_time: None, max_time: None }
    }

    /// Widens the window to cover `time`.
    pub fn insert_time(&mut self, time: i64)
        ensures
            final(self).min_spec() == opt_min_insert(old(self).min_spec(), time),
            final(self).max_spec() == opt_max_insert(old(self).max_spec(), time),
    {
        self.min_time = Some(
            match self.min_time {
                Some(mn) => if time < mn {
                    time
                } else {
                    mn
                },
                None => time,
            },
        );
        self.max_time = Some(
            match self.max_time {
                Some(mx) => if time > mx {
                    time
                } else {
                    mx
                },
                None => time,
            },
        );
    }

    /// The distance between the bounds, or nothing before the first
    /// insertion.
    pub fn get_elapsed(&self) -> (r: Option<i64>)
        requires
            match (self.min_spec(), self.max_spec()) {
                (Some(mn), Some(mx)) => i64::MIN <= mx - mn <= i64::MAX,
                _ => true,
            },
        ensures
            r == match (self.min_spec(), self.max_spec()) {
                (Some(mn), Some(mx)) => Some((mx - mn) as i64),
                _ => None::<i64>,
            },
    {
        match (self.min_time, self.max_time) {
            (Some(mn), Some(mx)) => Some(mx - mn),
            _ => None,
        }
    }

    pub fn reset(&mut self)
        ensures
            final(self).min_spec() is None,
            final(self).max_spec() is None,
    {
        self.min_time = None;
        self.max_time = None;
    }

    /// Overflow-free test of `spec_span_at_least`.
    fn span_at_least(&self, limit: usize) -> (r: bool)
        ensures
            r == self.spec_span_at_least(limit as int),
    {
        match (self.min_time, self.max_time) {
            (Some(mn), Some(mx)) => (mx as i128) - (mn as i128) >= (limit as i128),
            _ => false,
        }
    }
}

/// Abstract state of the rolling video buffer: the DTS-ordered frames,
/// the recorded keyframe DTS values, the cached presentation-time
/// bounds, and the window length in microseconds.
#[verifier::ext_equal]
pub ghost struct VideoBufView {
    pub frames: Seq<(i64, EncodedVideoFrame)>,
    pub kfs: Seq<i64>,
    pub wmin: Option<i64>,
    pub wmax: Option<i64>,
    pub window: int,
}

impl VideoBufView {
    /// Internal consistency: frames are ordered by DTS, the cached
    /// bounds cover every present presentation timestamp, and they are
    /// absent exactly when the buffer is empty.
    pub open spec fn inv(self) -> bool {
        &&& keys_sorted(self.frames)
        &&& 0 <= self.window <= i64::MAX
        &&& (self.frames.len() == 0 <==> self.wmin is None)
        &&& match (self.wmin, self.wmax) {
            (Some(mn), Some(mx)) => mn <= mx && forall|i: int|
                0 <= i < self.frames.len() ==> mn <= (#[trigger] self.frames[i]).1.pts <= mx,
            (None, None) => true,
            _ => false,
        }
    }

    /// The state right after recording a frame, before any trimming.
    pub open spec fn raw_insert(self, ts: i64, f: EncodedVideoFrame) -> VideoBufView {
        VideoBufView {
            frames: entry_insert(self.frames, ts, f),
            kfs: if f.is_keyframe {
                self.kfs.push(ts)
            } else {
                self.kfs
            },
            wmin: opt_min_insert(self.wmin, f.pts),
            wmax: opt_max_insert(self.wmax, f.pts),
            window: self.window,
        }
    }

    /// Eviction fires while at least two keyframes are recorded and the
    /// cached presentation span has reached the window.
    pub open spec fn needs_trim(self) -> bool {
        &&& self.kfs.len() >= 2
        &&& match (self.wmin, self.wmax) {
            (Some(mn), Some(mx)) => mx - mn >= self.window,
            _ => false,
        }
    }

    /// One eviction: every frame before the second recorded keyframe
    /// leaves together with the first recorded keyframe, and the
    /// presentation-time bounds are recomputed from what remains.
    pub open spec fn trim_once(self) -> VideoBufView {
        let nf = drop_below(self.frames, self.kfs[1]);
        let w = win_fold((None, None), nf);
        VideoBufView { frames: nf, kfs: self.kfs.skip(1), wmin: w.0, wmax: w.1, window: self.window }
    }

    /// Evicts whole groups of pictures until the span is inside the
    /// window or fewer than two keyframes remain.
    pub open spec fn trim(self) -> VideoBufView
        decreases self.kfs.len(),
    {
        if self.needs_trim() {
            self.trim_once().trim()
        } else {
            self
        }
    }

    /// The full effect of one insertion.
    pub open spec fn insert_spec(self, ts: i64, f: EncodedVideoFrame) -> VideoBufView {
        self.raw_insert(ts, f).trim()
    }

    /// The state after a reset.
    pub open spec fn reset_spec(self) -> VideoBufView {
        VideoBufView {
            frames: Seq::empty(),
            kfs: Seq::empty(),
            wmin: None,
            wmax: None,
            window: self.window,
        }
    }
}

/// Rolling buffer holding the most recent window of encoded video,
/// ordered by decoding timestamp and trimmed at group-of-pictures
/// boundaries only.
pub struct ShadowCaptureVideoBuffer {
    frames: Vec<(i64, EncodedVideoFrame)>,
    /// Window length in microseconds: once the presentation-time span
    /// reaches it, the oldest complete groups of pictures are evicted.
    max_time: usize,
    /// DTS values of the recorded keyframes, in insertion order.
    key_frame_keys: Vec<i64>,
    /// Cached presentation-time bounds, recomputed on every trim.
    time_window: TimeWindow,
}

impl View for ShadowCaptureVideoBuffer {
    type V = VideoBufView;

    closed spec fn view(&self) -> VideoBufView {
        VideoBufView {
            frames: self.frames@,
            kfs: self.key_frame_keys@,
            wmin: self.time_window.min_spec(),
            wmax: self.time_window.max_spec(),
            window: self.max_time as int,
        }
    }
}

impl ShadowCaptureVideoBuffer {
    pub open spec fn inv(&self) -> bool {
        self@.inv()
    }

    /// A fresh buffer with the given window length in microseconds.
    pub fn new(max_time: usize) -> (r: Self)
        requires
            max_time as int <= i64::MAX,
        ensures
            r@.frames =~= Seq::<(i64, EncodedVideoFrame)>::empty(),
            r@.kfs =~= Seq::<i64>::empty(),
            r@.window == max_time as int,
            r.inv(),
    {
        Self {
            frames: Vec::new(),
            max_time,
            key_frame_keys: Vec::new(),
            time_window: TimeWindow::new(),
        }
    }

    /// Records one encoded frame under its decoding timestamp, then
    /// evicts the oldest groups of pictures while at least two
    /// keyframes are recorded and the presentation span has reached the
    /// window.
    pub fn insert(&mut self, timestamp: i64, frame: EncodedVideoFrame)
        requires
            old(self).inv(),
        ensures
            final(self)@ == old(self)@.insert_spec(timestamp, frame),
            final(self).inv(),
    {
        let ghost f = frame;
        let ghost v0 = self@;
        let pts = frame.pts;
        if frame.is_keyframe {
            self.key_frame_keys.push(timestamp);
        }
        self.time_window.insert_time(pts);
        proof {
            lemma_entry_insert_sorted(self.frames@, timestamp, f);
        }
        vec_entry_insert(&mut self.frames, timestamp, frame);
        proof {
            assert(self@ =~~= v0.raw_insert(timestamp, f));
            assert(self@.inv()) by {
                let v = self@;
                assert forall|i: int|
                    0 <= i < v.frames.len() implies v.wmin.unwrap() <= (
                #[trigger] v.frames[i]).1.pts <= v.wmax.unwrap() by {
                    if v.frames[i] == (timestamp, f) {
                    } else {
                        assert(v0.frames.contains(v.frames[i]));
                        let j = choose|j: int|
                            0 <= j < v0.frames.len() && v0.frames[j] == v.frames[i];
                        assert(v0.wmin.unwrap() <= v0.frames[j].1.pts <= v0.wmax.unwrap());
                    }
                }
            }
        }
        let ghost t = self@;
        loop
            invariant_except_break
                self.inv(),
                self@.trim() == t.trim(),
            ensures
                self@ == t.trim(),
                self.inv(),
            decreases self@.kfs.len(),
        {
            if !(self.key_frame_keys.len() >= 2 && self.time_window.span_at_least(self.max_time)) {
                proof {
                    assert(!self@.needs_trim());
                }
                break ;
            }
            self.trim_oldest_gop();
        }
    }

    /// The decoding timestamp of the most recent keyframe: the start of
    /// the last group of pictures.
    pub fn get_last_gop_start(&self) -> (r: Option<i64>)
        ensures
            r == if self@.kfs.len() > 0 {
                Some(self@.kfs.last())
            } else {
                None::<i64>
            },
    {
        if self.key_frame_keys.len() > 0 {
            Some(self.key_frame_keys[self.key_frame_keys.len() - 1])
        } else {
            None
        }
    }

    /// Evicts the oldest group of pictures: everything strictly before
    /// the second recorded keyframe, together with the first recorded
    /// keyframe, then recomputes the presentation-time bounds.
    fn trim_oldest_gop(&mut self)
        requires
            old(self).inv(),
            old(self)@.kfs.len() >= 2,
        ensures
            final(self)@ == old(self)@.trim_once(),
            final(self).inv(),
    {
        let ghost v0 = self@;
        let stop_dts = self.key_frame_keys[1];
        vec_drop_below(&mut self.frames, stop_dts);
        self.key_frame_keys.remove(0);
        proof {
            lemma_drop_below_props(v0.frames, stop_dts);
            assert(self.key_frame_keys@ =~= v0.kfs.skip(1));
        }
        self.recalculate_pts();
        proof {
            assert(self@ =~~= v0.trim_once());
            lemma_win_fold_bounds(self@.frames);
        }
    }

    /// The smallest presentation timestamp currently covered, if any.
    pub fn oldest_pts(&self) -> (r: Option<i64>)
        ensures
            r == self@.wmin,
    {
        self.time_window.min_time
    }

    /// The largest presentation timestamp currently covered, if any.
    pub fn newest_pts(&self) -> (r: Option<i64>)
        ensures
            r == self@.wmax,
    {
        self.time_window.max_time
    }

    /// Rebuilds the presentation-time bounds by scanning the remaining
    /// frames.
    fn recalculate_pts(&mut self)
        ensures
            final(self)@.frames == old(self)@.frames,
            final(self)@.kfs == old(self)@.kfs,
            final(self)@.window == old(self)@.window,
            (final(self)@.wmin, final(self)@.wmax) == win_fold((None, None), old(self)@.frames),
    {
        self.time_window.reset();
        let ghost fs = self.frames@;
        proof {
            assert(fs.skip(0) =~= fs);
        }
        let mut idx: usize = 0;
        while idx < self.frames.len()
            invariant
                0 <= idx <= fs.len(),
                self.frames@ == fs,
                self.key_frame_keys@ == old(self).key_frame_keys@,
                self.max_time == old(self).max_time,
                win_fold(
                    (self.time_window.min_spec(), self.time_window.max_spec()),
                    fs.skip(idx as int),
                ) == win_fold((None, None), fs),
            decreases fs.len() - idx,
        {
            let ghost w = (self.time_window.min_spec(), self.time_window.max_spec());
            let pts = self.frames[idx].1.pts;
            self.time_window.insert_time(pts);
            proof {
                assert(fs.skip(idx as int)[0] == fs[idx as int]);
                assert(fs.skip(idx as int).skip(1) =~= fs.skip(idx as int + 1));
            }
            idx = idx + 1;
        }
        proof {
            assert(fs.skip(fs.len() as int) =~= Seq::<(i64, EncodedVideoFrame)>::empty());
        }
    }

    /// The frames currently held, ordered by decoding timestamp.
    pub fn get_frames(&self) -> (r: &Vec<(i64, EncodedVideoFrame)>)
        ensures
            r@ == self@.frames,
    {
        &self.frames
    }

    /// Empties the buffer; the window length is kept.
    pub fn reset(&mut self)
        requires
            old(self).inv(),
        ensures
            final(self)@ == old(self)@.reset_spec(),
            final(self).inv(),
    {
        self.frames.clear();
        self.key_frame_keys.clear();
        self.time_window.reset();
        proof {
            assert(self@ =~~= old(self)@.reset_spec());
        }
    }
}

/// Abstract state of the rolling audio buffer: the PTS-ordered encoded
/// packets, the capture timestamps in insertion order, and the window
/// length in microseconds.
#[verifier::ext_equal]
pub ghost struct AudioBufView {
    pub frames: Seq<(i64, Vec<u8>)>,
    pub times: Seq<i64>,
    pub window: int,
}

impl AudioBufView {
    pub open spec fn inv(self) -> bool {
        &&& keys_sorted(self.frames)
        &&& 0 <= self.window <= i64::MAX
    }

    /// Eviction fires while the span of the capture timestamps has
    /// reached the window.
    pub open spec fn needs_trim(self) -> bool {
        self.times.len() > 0 && self.times.last() - self.times.first() >= self.window
    }

    /// One eviction removes the head of both lists.
    pub open spec fn trim_step(self) -> AudioBufView {
        AudioBufView { frames: self.frames.skip(1), times: self.times.skip(1), window: self.window }
    }

    /// Evicts heads in lock-step until the capture-time span is inside
    /// the window; stops early if no frame is left to pair a removal
    /// with.
    pub open spec fn trim(self) -> AudioBufView
        decreases self.times.len(),
    {
        if self.needs_trim() && self.frames.len() > 0 {
            self.trim_step().trim()
        } else {
            self
        }
    }

    /// The full effect of inserting one encoded packet.
    pub open spec fn insert_spec(self, pts: i64, data: Vec<u8>) -> AudioBufView {
        AudioBufView { frames: entry_insert(self.frames, pts, data), ..self }.trim()
    }

    /// The state after a reset.
    pub open spec fn reset_spec(self) -> AudioBufView {
        AudioBufView { frames: Seq::empty(), times: Seq::empty(), window: self.window }
    }
}

/// Trimming preserves the audio invariant and the window length.
pub proof fn lemma_audio_trim_props(v: AudioBufView)
    ensures
        v.trim().window == v.window,
        v.inv() ==> v.trim().inv(),
    decreases v.times.len(),
{
    if v.needs_trim() && v.frames.len() > 0 {
        if v.inv() {
            lemma_sorted_skip(v.frames, 1);
        }
        lemma_audio_trim_props(v.trim_step());
    }
}

/// Inserting one packet preserves the audio invariant and the window
/// length.
pub proof fn lemma_audio_insert_spec_props(v: AudioBufView, pts: i64, data: Vec<u8>)
    requires
        v.inv(),
    ensures
        v.insert_spec(pts, data).inv(),
        v.insert_spec(pts, data).window == v.window,
{
    lemma_entry_insert_sorted(v.frames, pts, data);
    lemma_audio_trim_props(AudioBufView { frames: entry_insert(v.frames, pts, data), ..v });
}

/// Rolling buffer holding the most recent window of encoded audio,
/// ordered by presentation timestamp, with one capture timestamp
/// recorded per inserted packet.
#[derive(Clone)]
pub struct ShadowCaptureAudioBuffer {
    frames: Vec<(i64, Vec<u8>)>,
    /// Window length in microseconds of capture time.
    max_time: usize,
    capture_times: Vec<i64>,
}

impl View for ShadowCaptureAudioBuffer {
    type V = AudioBufView;

    closed spec fn view(&self) -> AudioBufView {
        AudioBufView {
            frames: self.frames@,
            times: self.capture_times@,
            window: self.max_time as int,
        }
    }
}

impl ShadowCaptureAudioBuffer {
    pub open spec fn inv(&self) -> bool {
        self@.inv()
    }

    /// A fresh buffer with the given window length in microseconds.
    pub fn new(max_time: usize) -> (r: Self)
        requires
            max_time as int <= i64::MAX,
        ensures
            r@.frames =~= Seq::<(i64, Vec<u8>)>::empty(),
            r@.times =~= Seq::<i64>::empty(),
            r@.window == max_time as int,
            r.inv(),
    {
        Self { frames: Vec::new(), max_time, capture_times: Vec::new() }
    }

    /// Stores one encoded packet under its presentation timestamp,
    /// then evicts the head of both lists while the capture-time span
    /// has reached the window.
    pub fn insert(&mut self, timestamp: i64, frame: Vec<u8>)
        requires
            old(self).inv(),
        ensures
            final(self)@ == old(self)@.insert_spec(timestamp, frame),
            final(self).inv(),
    {
        proof {
            lemma_entry_insert_sorted(self.frames@, timestamp, frame);
        }
        let ghost d = frame;
        let ghost v0 = self@;
        vec_entry_insert(&mut self.frames, timestamp, frame);
        proof {
            assert(self@ =~~= AudioBufView { frames: entry_insert(v0.frames, timestamp, d), ..v0 });
        }
        let ghost t = self@;
        loop
            invariant_except_break
                self.inv(),
                self@.trim() == t.trim(),
            ensures
                self@ == t.trim(),
                self.inv(),
            decreases self@.times.len(),
        {
            let n = self.capture_times.len();
            if n == 0 {
                break ;
            }
            let oldest = self.capture_times[0];
            let newest = self.capture_times[n - 1];
            if (newest as i128) - (oldest as i128) < (self.max_time as i128) {
                proof {
                    assert(!self@.needs_trim());
                }
                break ;
            }
            if self.frames.len() == 0 {
                break ;
            }
            let ghost before = self@;
            self.frames.remove(0);
            self.capture_times.remove(0);
            proof {
                assert(self@.frames =~= before.frames.skip(1));
                assert(self@.times =~= before.times.skip(1));
                assert(self@ =~~= before.trim_step());
                lemma_sorted_skip(before.frames, 1);
            }
        }
    }

    /// The capture timestamps, one per inserted packet, oldest first.
    pub fn get_capture_times(&self) -> (r: &Vec<i64>)
        ensures
            r@ == self@.times,
    {
        &self.capture_times
    }

    /// The packets currently held, ordered by presentation timestamp.
    pub fn get_frames(&self) -> (r: &Vec<(i64, Vec<u8>)>)
        ensures
            r@ == self@.frames,
    {
        &self.frames
    }

    /// Appends the capture timestamp of the raw audio behind the next
    /// encoded packet.
    pub fn insert_capture_time(&mut self, time: i64)
        ensures
            final(self)@ == (AudioBufView { times: old(self)@.times.push(time), ..old(self)@ }),
            old(self).inv() ==> final(self).inv(),
    {
        self.capture_times.push(time);
        proof {
            assert(self@ =~~= (AudioBufView { times: old(self)@.times.push(time), ..old(self)@ }));
        }
    }

    /// Empties both lists; the window length is kept.
    pub fn reset(&mut self)
        requires
            old(self).inv(),
        ensures
            final(self)@ == old(self)@.reset_spec(),
            final(self).inv(),
    {
        self.frames.clear();
        self.capture_times.clear();
        proof {
            assert(self@ =~~= old(self)@.reset_spec());
        }
    }
}

} // verus!
