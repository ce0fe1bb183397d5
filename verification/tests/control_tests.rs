use waycap_core::control::{
    app_state_code, app_state_from_code, frame_interval_us, should_accept_frame, AppState,
    AtomicAppState, ShadowApp, StateError,
};
use waycap_core::frame_data::{AudioFrameData, VideoFrameData};

#[test]
fn test_app_state_codes_round_trip() {
    for state in [AppState::Initializing, AppState::Recording, AppState::Saving] {
        assert_eq!(app_state_from_code(app_state_code(state)), Ok(state));
    }
    assert_eq!(app_state_from_code(3), Err(StateError::Unknown));
    assert_eq!(app_state_from_code(255), Err(StateError::Unknown));
}

#[test]
fn test_atomic_app_state_store_load() {
    let shared = AtomicAppState::new(AppState::Initializing);
    assert_eq!(shared.load(), Ok(AppState::Initializing));
    shared.store(AppState::Recording);
    assert_eq!(shared.load(), Ok(AppState::Recording));
    shared.store(AppState::Saving);
    assert_eq!(shared.load(), Ok(AppState::Saving));
}

#[test]
fn test_shadow_app_new() {
    let app = ShadowApp::new(2560, 1440, 1_700_000_000_000_000);
    assert_eq!(app.width, 2560);
    assert_eq!(app.height, 1440);
    assert_eq!(app.start_time_us, 1_700_000_000_000_000);
}

#[test]
fn test_frame_pacing() {
    assert_eq!(frame_interval_us(60), 16_666);
    assert_eq!(frame_interval_us(30), 33_333);

    // exactly one interval after the last accepted frame is accepted
    assert!(should_accept_frame(16_666, 0, 16_666));
    // anything earlier is dropped
    assert!(!should_accept_frame(16_665, 0, 16_666));
    // the comparison survives extreme timestamps without wrapping
    assert!(!should_accept_frame(i64::MIN, i64::MAX, 1));
}

#[test]
fn test_video_frame_data_builder() {
    let mut frame = VideoFrameData::new();
    assert!(frame.get_frame_bytes().is_empty());
    assert_eq!(frame.get_time(), 0);
    frame.set_time(42);
    frame.set_frame_bytes(vec![1, 2, 3]);
    assert_eq!(frame.get_time(), 42);
    assert_eq!(*frame.get_frame_bytes(), vec![1, 2, 3]);
}

#[test]
fn test_audio_frame_data_builder() {
    let mut frame = AudioFrameData::new();
    assert!(frame.get_frame_bytes().is_empty());
    assert_eq!(frame.get_capture_time(), 0);
    assert_eq!(frame.get_chunk_time(), 0);
    frame.set_capture_time(7);
    frame.set_chunk_time(960);
    frame.set_frame_bytes(vec![9]);
    assert_eq!(frame.get_capture_time(), 7);
    assert_eq!(frame.get_chunk_time(), 960);
    assert_eq!(*frame.get_frame_bytes(), vec![9]);
}
