//! The window of the graphical frontend: how its drawing surface follows the
//! window's size, and what a window event or a failed frame leads to.
use vstd::prelude::*;

verus! {

/// The size of the drawing surface, in physical pixels.
#[derive(Clone, Copy)]
pub struct SurfaceSize {
    pub width: u32,
    pub height: u32,
}

/// The surface's size once the window reports a new size: the new size when
/// both sides are non-zero, else the size it had (a minimized window).
pub open spec fn resize_target(current: SurfaceSize, new_size: SurfaceSize) -> SurfaceSize {
    if new_size.width > 0 && new_size.height > 0 {
        new_size
    } else {
        current
    }
}

/// Computes the surface's size once the window reports a new size.
pub fn resized(current: SurfaceSize, new_size: SurfaceSize) -> (r: SurfaceSize)
    ensures
        r == resize_target(current, new_size),
{
    if new_size.width > 0 && new_size.height > 0 {
        new_size
    } else {
        current
    }
}

/// The window events the frontend reacts to.
pub enum WindowInput {
    CloseRequested,
    EscapePressed,
    Resized(SurfaceSize),
    RedrawRequested,
    Other,
}

/// Why a frame could not be presented.
pub enum FrameError {
    Lost,
    Outdated,
    OutOfMemory,
    Timeout,
}

/// What the frontend does.
pub enum WindowAction {
    /// Leave the event loop.
    Exit,
    /// Configure the surface at this size.
    Configure(SurfaceSize),
    /// Ask for the next frame, update and draw.
    Draw,
    /// A warning is logged and nothing else happens.
    Warn,
    /// Nothing happens.
    Ignore,
}

/// Decides a window event for a surface of size `current`; nothing happens
/// before the window's state exists.
pub fn window_step(ready: bool, current: SurfaceSize, input: WindowInput) -> (r: WindowAction)
    ensures
        !ready ==> r is Ignore,
        ready ==> match input {
            WindowInput::CloseRequested => r is Exit,
            WindowInput::EscapePressed => r is Exit,
            WindowInput::Resized(s) => r == WindowAction::Configure(resize_target(current, s)),
            WindowInput::RedrawRequested => r is Draw,
            WindowInput::Other => r is Ignore,
        },
{
    if !ready {
        return WindowAction::Ignore;
    }
    match input {
        WindowInput::CloseRequested => WindowAction::Exit,
        WindowInput::EscapePressed => WindowAction::Exit,
        WindowInput::Resized(s) => WindowAction::Configure(resized(current, s)),
        WindowInput::RedrawRequested => WindowAction::Draw,
        WindowInput::Other => WindowAction::Ignore,
    }
}

/// Recovers from a frame that could not be presented: a lost or outdated
/// surface is configured again at its size, running out of memory ends the
/// loop, and a timeout is only logged.
pub fn frame_recovery(current: SurfaceSize, error: FrameError) -> (r: WindowAction)
    ensures
        match error {
            FrameError::Lost => r == WindowAction::Configure(resize_target(current, current)),
            FrameError::Outdated => r == WindowAction::Configure(resize_target(current, current)),
            FrameError::OutOfMemory => r is Exit,
            FrameError::Timeout => r is Warn,
        },
{
    match error {
        FrameError::Lost => WindowAction::Configure(resized(current, current)),
        FrameError::Outdated => WindowAction::Configure(resized(current, current)),
        FrameError::OutOfMemory => WindowAction::Exit,
        FrameError::Timeout => WindowAction::Warn,
    }
}

} // verus!
