//! Control-plane state and capture pacing.
//!
//! The application moves between a few coarse states that several
//! threads observe through one shared atomic byte; the encoding and
//! decoding of that byte is verified here, while the atomic cell
//! itself carries no specification.  The same module holds the pacing
//! rule with which the video capture worker throttles a source that
//! delivers above the target frame rate.

use core::sync::atomic::AtomicU8;
use core::sync::atomic::Ordering;

use vstd::prelude::*;

verus! {

/// Coarse application state shared between threads.
#[derive(Debug, Clone, Copy, PartialEq, Eq, Structural)]
pub enum AppState {
    Initializing,
    Recording,
    Saving,
}

/// A state byte that matches no state.
#[derive(Debug, Clone, Copy, PartialEq, Eq, Structural)]
pub enum StateError {
    Unknown,
}

/// The byte under which a state is shared.
pub open spec fn app_state_code_spec(state: AppState) -> u8 {
    match state {
        AppState::Initializing => 0,
        AppState::Recording => 1,
        AppState::Saving => 2,
    }
}

/// Encodes a state as its shared byte.
pub fn app_state_code(state: AppState) -> (r: u8)
    ensures
        r == app_state_code_spec(state),
{
    match state {
        AppState::Initializing => 0,
        AppState::Recording => 1,
        AppState::Saving => 2,
    }
}

/// Decodes a shared byte back into a state: the exact inverse of
/// [`app_state_code`] on the three valid bytes, an error on all
/// others.
pub fn app_state_from_code(value: u8) -> (r: Result<AppState, StateError>)
    ensures
        value == 0 ==> r == Ok::<AppState, StateError>(AppState::Initializing),
        value == 1 ==> r == Ok::<AppState, StateError>(AppState::Recording),
        value == 2 ==> r == Ok::<AppState, StateError>(AppState::Saving),
        value > 2 ==> r == Err::<AppState, StateError>(StateError::Unknown),
{
    match value {
        0 => Ok(AppState::Initializing),
        1 => Ok(AppState::Recording),
        2 => Ok(AppState::Saving),
        _ => Err(StateError::Unknown),
    }
}

/// The application state as one shared atomic byte.  What a load
/// observes depends on the interleaving of threads, so nothing is
/// promised about the stored value; the byte-level encoding and
/// decoding around the cell carry the contracts.
pub struct AtomicAppState {
    inner: AtomicU8,
}

impl AtomicAppState {
    pub fn new(state: AppState) -> Self {
        Self { inner: AtomicU8::new(app_state_code(state)) }
    }

    /// Reads whatever state byte is currently shared and decodes it.
    pub fn load(&self) -> Result<AppState, StateError> {
        app_state_from_code(self.inner.load(Ordering::SeqCst))
    }

    /// Publishes a state.
    pub fn store(&self, state: AppState) {
        self.inner.store(app_state_code(state), Ordering::SeqCst);
    }
}

/// Identity of one capture session: its shared state, the negotiated
/// frame size, and the wall-clock epoch (microseconds since the Unix
/// epoch) from which both media streams are stamped.
pub struct ShadowApp {
    pub current_state: AtomicAppState,
    pub width: u32,
    pub height: u32,
    pub start_time_us: i64,
}

impl ShadowApp {
    pub fn new(width: u32, height: u32, start_time_us: i64) -> (r: Self)
        ensures
            r.width == width,
            r.height == height,
            r.start_time_us == start_time_us,
    {
        Self { current_state: AtomicAppState::new(AppState::Initializing), width, height, start_time_us }
    }
}

/// Pacing rule of the video capture worker: a frame is encoded only
/// when at least one frame interval has passed since the last frame
/// accepted.
pub open spec fn spec_should_accept(timestamp_us: int, last_accepted_us: int, interval_us: int) -> bool {
    timestamp_us >= last_accepted_us + interval_us
}

/// Decides whether the capture worker hands a frame to the encoder or
/// drops it to cap the encoder load.
pub fn should_accept_frame(timestamp_us: i64, last_accepted_us: i64, frame_interval_us: i64) -> (r:
    bool)
    ensures
        r == spec_should_accept(timestamp_us as int, last_accepted_us as int, frame_interval_us as int),
{
    (timestamp_us as i128) >= (last_accepted_us as i128) + (frame_interval_us as i128)
}

/// The frame interval in microseconds for a target frame rate.
pub fn frame_interval_us(target_fps: u32) -> (r: u32)
    requires
        target_fps >= 1,
    ensures
        r == 1_000_000u32 as int / target_fps as int,
{
    1_000_000u32 / target_fps
}

} // verus!
