//! Identifiers that the backends hand out.
use vstd::prelude::*;

use crate::protocol::Fixed;

pub mod drmkms;
pub mod gl46_renderer;
pub mod pixman_renderer;
pub mod wayland;

verus! {

/// Identifies a buffer known to the renderer.
#[derive(Debug, Clone, Copy, PartialEq, Eq, Structural, PartialOrd, Ord, Hash)]
pub struct BufferId(pub u64);

/// Identifies a keyboard.
#[derive(Debug, Clone, Copy, PartialEq, Eq, Structural, PartialOrd, Ord, Hash)]
pub struct KeyboardId(pub u64);

/// Identifies a pointer.
#[derive(Debug, Clone, Copy, PartialEq, Eq, Structural, PartialOrd, Ord, Hash)]
pub struct PointerId(pub u64);

/// The time of an input event in milliseconds, from an arbitrary start.
#[derive(Debug, Clone, Copy, PartialEq, Eq, Structural, PartialOrd, Ord, Hash)]
pub struct InputTimestamp(pub u32);

impl InputTimestamp {
    /// The number of milliseconds.
    pub fn get(self) -> (r: u32)
        ensures
            r == self.0,
    {
        self.0
    }
}

/// What a backend tells the compositor. Positions and distances are in pixels of the screen.
#[derive(Debug, Clone, Copy, PartialEq, Eq, Structural)]
pub enum BackendEvent {
    ShutDown,
    Frame,
    NewKeyboard(KeyboardId),
    KeyPressed(KeyboardId, InputTimestamp, u32),
    KeyReleased(KeyboardId, InputTimestamp, u32),
    KeyboardRemoved(KeyboardId),
    NewPointer(PointerId),
    PointerMotionAbsolute(PointerId, InputTimestamp, Fixed, Fixed),
    PointerMotionRelative(PointerId, InputTimestamp, Fixed, Fixed),
    PointerBtnPress(PointerId, InputTimestamp, u32),
    PointerBtnRelease(PointerId, InputTimestamp, u32),
    PointerAxisVertial(PointerId, InputTimestamp, Fixed),
    PointerRemoved(PointerId),
}

/// What draws the frames.
#[derive(Debug, Clone, Copy, PartialEq, Eq, Structural)]
pub enum Renderer {
    /// The graphics card.
    OpenGl,
    /// The processor.
    Pixman,
}

/// The graphics card draws the frames if it can hand its buffers out, unless that is not wanted.
pub fn choose_renderer(no_gl: bool, dmabuf: bool) -> (r: Renderer)
    ensures
        r == (if !no_gl && dmabuf {
            Renderer::OpenGl
        } else {
            Renderer::Pixman
        }),
{
    if no_gl || !dmabuf {
        Renderer::Pixman
    } else {
        Renderer::OpenGl
    }
}

/// Hands out the number in `id` and moves `id` on to the next one.
#[must_use]
pub fn next_id(id: &mut u64) -> (r: u64)
    requires
        *old(id) < u64::MAX,
    ensures
        r == *old(id),
        *final(id) == *old(id) + 1,
{
    let val: u64 = *id;
    *id = val + 1;
    val
}

} // verus!
