//! A software triangle rasterizer over fixed-point coordinates.
use vstd::prelude::*;

pub mod fixed;
pub mod geometry;
pub mod pixel;
pub mod texture;
pub mod renderer;
pub mod object;
pub mod laws;
pub mod screen;
pub mod mesh;

verus! {

/// Nanoseconds in one second.
pub const NANOS_PER_SECOND: u32 = 1_000_000_000;

/// The window and pacing a main loop is set up with.
pub struct ScreenConfig {
    pub title: &'static str,
    pub width: u32,
    pub height: u32,
    pub target_fps: u32,
}

impl ScreenConfig {
    /// The length of one frame in nanoseconds.
    pub fn frame_len_nanos(&self) -> (r: u32)
        requires
            self.target_fps > 0,
        ensures
            r == NANOS_PER_SECOND / self.target_fps,
    {
        NANOS_PER_SECOND / self.target_fps
    }
}

/// The time left to sleep at the end of a frame that took `elapsed` of its
/// `frame_len` nanoseconds; `None` where the frame ran over.
pub fn frame_sleep_nanos(frame_len: u64, elapsed: u64) -> (r: Option<u64>)
    ensures
        elapsed < frame_len ==> r == Some((frame_len - elapsed) as u64),
        elapsed >= frame_len ==> r is None,
{
    if elapsed < frame_len {
        Some(frame_len - elapsed)
    } else {
        None
    }
}

/// What the user asked of the main loop.
#[derive(Clone, Copy, Debug, PartialEq, Eq, Structural)]
pub enum Input {
    /// Close the window or press escape.
    Quit,
    /// Toggle the pause.
    TogglePause,
    /// Advance one tick.
    Step,
    /// Anything else.
    Other,
}

/// The state of a main loop.
#[derive(Clone, Copy, Debug, PartialEq, Eq, Structural)]
pub struct LoopState {
    pub running: bool,
    pub paused: bool,
    pub step: bool,
}

impl LoopState {
    /// A running loop, neither paused nor stepping.
    pub fn new() -> (s: LoopState)
        ensures
            s == (LoopState { running: true, paused: false, step: false }),
    {
        LoopState { running: true, paused: false, step: false }
    }

    /// Whether the next frame updates the world.
    pub fn should_tick(&self) -> (r: bool)
        ensures
            r == (self.paused || self.step),
    {
        self.paused || self.step
    }

    /// Applies one input.
    pub fn handle(&mut self, input: Input)
        ensures
            *final(self) == (match input {
                Input::Quit => LoopState { running: false, ..*old(self) },
                Input::TogglePause => LoopState { paused: !old(self).paused, ..*old(self) },
                Input::Step => LoopState { step: true, ..*old(self) },
                Input::Other => *old(self),
            }),
    {
        match input {
            Input::Quit => self.running = false,
            Input::TogglePause => self.paused = !self.paused,
            Input::Step => self.step = true,
            Input::Other => {},
        }
    }

    /// Starts a frame: whether it updates the world; a pending step is
    /// used up by it.
    pub fn begin_tick(&mut self) -> (r: bool)
        ensures
            r == (old(self).paused || old(self).step),
            *final(self) == (if r { LoopState { step: false, ..*old(self) } } else { *old(self) }),
    {
        if self.should_tick() {
            self.step = false;
            true
        } else {
            false
        }
    }
}

} // verus!
