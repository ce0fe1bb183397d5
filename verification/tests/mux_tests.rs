use waycap_core::buffer::{EncodedVideoFrame, ShadowCaptureAudioBuffer, ShadowCaptureVideoBuffer};
use waycap_core::mux::{clip_filename, save_plan, MuxError};

fn vframe(data: Vec<u8>, pts: i64, keyframe: bool) -> EncodedVideoFrame {
    EncodedVideoFrame {
        data,
        pts,
        dts: pts,
        is_keyframe: keyframe,
    }
}

/// Video: keyframes at DTS 100 and 400, closing keyframe at 700.
/// Audio: one packet per 960 samples, captured every 100 us from 150.
fn filled_buffers() -> (ShadowCaptureVideoBuffer, ShadowCaptureAudioBuffer) {
    let mut video = ShadowCaptureVideoBuffer::new(10_000_000);
    video.insert(100, vframe(vec![1], 100, true));
    video.insert(200, vframe(vec![2], 200, false));
    video.insert(300, vframe(vec![3], 300, false));
    video.insert(400, vframe(vec![4], 400, true));
    video.insert(500, vframe(vec![5], 500, false));
    video.insert(700, vframe(vec![7], 700, true));

    let mut audio = ShadowCaptureAudioBuffer::new(10_000_000);
    let mut pts = 0i64;
    let mut ts = 150i64;
    for i in 0..6u8 {
        audio.insert(pts, vec![10 + i]);
        audio.insert_capture_time(ts);
        pts += 960;
        ts += 100;
    }
    (video, audio)
}

#[test]
fn test_save_plan_cuts_and_rebases() {
    let (video, audio) = filled_buffers();
    let plan = save_plan(&video, &audio).unwrap();

    // the video is cut at the last keyframe (DTS 700): everything up
    // to and including it is written, rebased to the first frame
    assert_eq!(plan.video.len(), 6);
    assert_eq!(plan.video[0].pts, 0);
    assert_eq!(plan.video[0].dts, 0);
    assert!(plan.video[0].is_keyframe);
    assert_eq!(plan.video[0].data, vec![1]);
    assert_eq!(plan.video[1].pts, 100);
    assert_eq!(plan.video[5].pts, 600);

    // audio starts at the first frame captured at or after the video
    // base (100): that is the first one (150), rebased to pts 0; the
    // walk stops once capture times pass the newest video pts (700)
    assert_eq!(plan.audio.len(), 6);
    assert_eq!(plan.audio[0].pts, 0);
    assert_eq!(plan.audio[0].data, vec![10]);
    assert_eq!(plan.audio[5].pts, 5 * 960);
}

#[test]
fn test_save_plan_skips_video_before_audio() {
    let mut video = ShadowCaptureVideoBuffer::new(10_000_000);
    video.insert(100, vframe(vec![1], 100, true));
    video.insert(200, vframe(vec![2], 200, false));
    video.insert(300, vframe(vec![3], 300, false));
    video.insert(400, vframe(vec![4], 400, true));

    let mut audio = ShadowCaptureAudioBuffer::new(10_000_000);
    audio.insert(0, vec![10]);
    audio.insert_capture_time(250);
    audio.insert(960, vec![11]);
    audio.insert_capture_time(350);

    let plan = save_plan(&video, &audio).unwrap();

    // the leading non-keyframes before the audio start (250) are
    // dropped, but keyframes are always kept
    assert_eq!(plan.video.len(), 3);
    assert!(plan.video[0].is_keyframe);
    assert_eq!(plan.video[0].pts, 0); // frame at 100
    assert_eq!(plan.video[1].pts, 200); // frame at 300
    assert_eq!(plan.video[2].pts, 300); // keyframe at 400
}

#[test]
fn test_save_plan_clips_audio_to_video() {
    let mut video = ShadowCaptureVideoBuffer::new(10_000_000);
    video.insert(100, vframe(vec![1], 100, true));
    video.insert(200, vframe(vec![2], 200, false));

    let mut audio = ShadowCaptureAudioBuffer::new(10_000_000);
    audio.insert(0, vec![10]);
    audio.insert_capture_time(120);
    audio.insert(960, vec![11]);
    audio.insert_capture_time(180);
    audio.insert(1920, vec![12]);
    audio.insert_capture_time(900); // captured after the last video frame

    let plan = save_plan(&video, &audio).unwrap();

    // only the keyframe lies in the cut (it is the only keyframe), so
    // the newest written video pts is 100; audio captured later stays out
    assert_eq!(plan.video.len(), 1);
    assert_eq!(plan.audio.len(), 0);
}

#[test]
fn test_clip_filename() {
    assert_eq!(clip_filename(0), "clip_0.mp4");
    assert_eq!(clip_filename(7), "clip_7.mp4");
    assert_eq!(clip_filename(1_234_567_890), "clip_1234567890.mp4");
}

#[test]
fn test_save_plan_without_keyframe() {
    let mut video = ShadowCaptureVideoBuffer::new(10_000_000);
    video.insert(100, vframe(vec![1], 100, false));

    let mut audio = ShadowCaptureAudioBuffer::new(10_000_000);
    audio.insert(0, vec![10]);
    audio.insert_capture_time(150);

    assert!(matches!(save_plan(&video, &audio), Err(MuxError::NoKeyframe)));
}

#[test]
fn test_save_plan_without_audio() {
    let mut video = ShadowCaptureVideoBuffer::new(10_000_000);
    video.insert(100, vframe(vec![1], 100, true));

    let audio = ShadowCaptureAudioBuffer::new(10_000_000);

    assert!(matches!(save_plan(&video, &audio), Err(MuxError::NoAudio)));
}
