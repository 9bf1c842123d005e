//! Values of the Wayland protocol: handles of protocol objects, enumerations, and the actions that
//! requests and input lead to.
use vstd::prelude::*;

use crate::backend::BufferId;
use crate::client::ClientId;

verus! {

/// A protocol object. Objects of one kind that belong to one client differ in their key.
#[derive(Debug, Clone, Copy, PartialEq, Eq, Structural)]
pub struct Handle {
    pub client: ClientId,
    pub key: u64,
}

/// A protocol object together with the version that it was bound at.
#[derive(Debug, Clone, Copy, PartialEq, Eq, Structural)]
pub struct Resource {
    pub handle: Handle,
    pub version: u32,
}

/// A signed number in units of 1/256.
#[derive(Debug, Clone, Copy, PartialEq, Eq, Structural)]
pub struct Fixed(pub i32);

/// The edge or corner of a window that is being dragged.
#[derive(Debug, Clone, Copy, PartialEq, Eq, Structural)]
pub enum ResizeEdge {
    NoEdge,
    Top,
    Bottom,
    Left,
    TopLeft,
    BottomLeft,
    Right,
    TopRight,
    BottomRight,
}

impl ResizeEdge {
    /// Whether the upper edge moves.
    pub open spec fn has_top(self) -> bool {
        self is Top || self is TopLeft || self is TopRight
    }

    /// Whether the lower edge moves.
    pub open spec fn has_bottom(self) -> bool {
        self is Bottom || self is BottomLeft || self is BottomRight
    }

    /// Whether the left edge moves.
    pub open spec fn has_left(self) -> bool {
        self is Left || self is TopLeft || self is BottomLeft
    }

    /// Whether the right edge moves.
    pub open spec fn has_right(self) -> bool {
        self is Right || self is TopRight || self is BottomRight
    }

    /// Whether the upper edge moves.
    pub fn top(self) -> (r: bool)
        ensures
            r == self.has_top(),
    {
        matches!(self, ResizeEdge::Top | ResizeEdge::TopLeft | ResizeEdge::TopRight)
    }

    /// Whether the lower edge moves.
    pub fn bottom(self) -> (r: bool)
        ensures
            r == self.has_bottom(),
    {
        matches!(self, ResizeEdge::Bottom | ResizeEdge::BottomLeft | ResizeEdge::BottomRight)
    }

    /// Whether the left edge moves.
    pub fn left(self) -> (r: bool)
        ensures
            r == self.has_left(),
    {
        matches!(self, ResizeEdge::Left | ResizeEdge::TopLeft | ResizeEdge::BottomLeft)
    }

    /// Whether the right edge moves.
    pub fn right(self) -> (r: bool)
        ensures
            r == self.has_right(),
    {
        matches!(self, ResizeEdge::Right | ResizeEdge::TopRight | ResizeEdge::BottomRight)
    }
}

/// How the contents of a buffer are turned before they are shown.
#[derive(Debug, Clone, Copy, PartialEq, Eq, Structural)]
pub enum Transform {
    Normal,
    Rotated90,
    Rotated180,
    Rotated270,
    Flipped,
    Flipped90,
    Flipped180,
    Flipped270,
}

impl Transform {
    /// Whether the transform exchanges width and height: the rotation is a quarter turn, either way.
    pub open spec fn quarter_turn(self) -> bool {
        self is Rotated90 || self is Rotated270 || self is Flipped90 || self is Flipped270
    }

    /// Whether the transform holds a half turn.
    pub open spec fn half_turn(self) -> bool {
        self is Rotated180 || self is Rotated270 || self is Flipped180 || self is Flipped270
    }

    /// Whether the transform mirrors the contents.
    pub open spec fn mirrored(self) -> bool {
        self is Flipped || self is Flipped90 || self is Flipped180 || self is Flipped270
    }

    /// Whether the transform exchanges width and height.
    pub fn is_quarter_turn(self) -> (r: bool)
        ensures
            r == self.quarter_turn(),
    {
        matches!(self, Transform::Rotated90 | Transform::Rotated270 | Transform::Flipped90 | Transform::Flipped270)
    }

    /// Whether the transform holds a half turn.
    pub fn is_half_turn(self) -> (r: bool)
        ensures
            r == self.half_turn(),
    {
        matches!(self, Transform::Rotated180 | Transform::Rotated270 | Transform::Flipped180 | Transform::Flipped270)
    }

    /// Whether the transform mirrors the contents.
    pub fn is_mirrored(self) -> (r: bool)
        ensures
            r == self.mirrored(),
    {
        matches!(self, Transform::Flipped | Transform::Flipped90 | Transform::Flipped180 | Transform::Flipped270)
    }
}

/// The point of the anchor rectangle that a popup is placed against.
#[derive(Debug, Clone, Copy, PartialEq, Eq, Structural)]
pub enum Anchor {
    Center,
    Top,
    Bottom,
    Left,
    Right,
    TopLeft,
    BottomLeft,
    TopRight,
    BottomRight,
}

/// The side of the anchor point that a popup lies on.
#[derive(Debug, Clone, Copy, PartialEq, Eq, Structural)]
pub enum Gravity {
    Center,
    Top,
    Bottom,
    Left,
    Right,
    TopLeft,
    BottomLeft,
    TopRight,
    BottomRight,
}

/// How a popup may be moved when it does not fit.
#[derive(Debug, Clone, Copy, PartialEq, Eq, Structural)]
pub struct ConstraintAdjustment(pub u32);

/// Pixel formats of shared memory buffers.
#[derive(Debug, Clone, Copy, PartialEq, Eq, Structural)]
pub enum ShmFormat {
    Argb8888,
    Xrgb8888,
    Other(u32),
}

/// Whether a key or a button went down or up.
#[derive(Debug, Clone, Copy, PartialEq, Eq, Structural)]
pub enum PressState {
    Released,
    Pressed,
}

/// Interfaces that clients can bind.
#[derive(Debug, Clone, Copy, PartialEq, Eq, Structural)]
pub enum GlobalInterface {
    WlCompositor,
    WlSubcompositor,
    XdgWmBase,
    WpViewporter,
    WlSeat,
    WlDataDeviceManager,
    WlShm,
    WlOutput,
    EwcDebugV1,
    WpSinglePixelBufferManagerV1,
    WpCursorShapeManagerV1,
    ZwpLinuxDmabufV1,
}

/// What handling a request or an input event leads to, in the order in which it is to be done:
/// events that are sent to clients, and buffers that are given back to the renderer.
#[derive(Debug, Clone, PartialEq, Eq)]
pub enum Action {
    /// The renderer is told that one use of a buffer has ended.
    UnlockBuffer { buffer: BufferId },
    /// `wl_buffer.release`
    BufferRelease { buffer: Handle },
    /// `wl_callback.done`
    CallbackDone { callback: Handle, data: u32 },
    /// `wl_display.delete_id`
    DeleteId { client: ClientId, id: u32 },
    /// `wl_registry.global`
    RegistryGlobal { registry: Handle, name: u32, interface: GlobalInterface, version: u32 },
    /// `wl_shm.format`
    ShmFormat { shm: Handle, format: ShmFormat },
    /// `zwp_linux_dmabuf_v1.format`
    DmabufFormat { dmabuf: Handle, format: u32 },
    /// `zwp_linux_dmabuf_v1.modifier`
    DmabufModifier { dmabuf: Handle, format: u32, modifier_hi: u32, modifier_lo: u32 },
    /// `wl_output.geometry`
    OutputGeometry { output: Handle },
    /// `wl_output.mode`
    OutputMode { output: Handle, width: i32, height: i32, refresh: i32 },
    /// `wl_output.done`
    OutputDone { output: Handle },
    /// `wl_seat.capabilities`, with a keyboard and a pointer
    SeatCapabilities { seat: Handle },
    /// `wl_keyboard.keymap`, with the keymap of the seat
    KeyboardKeymap { keyboard: Handle },
    /// `wl_keyboard.repeat_info`
    KeyboardRepeatInfo { keyboard: Handle, rate: i32, delay: i32 },
    /// `wl_keyboard.enter`, with no pressed keys
    KeyboardEnter { keyboard: Handle, serial: u32, surface: Handle },
    /// `wl_keyboard.leave`
    KeyboardLeave { keyboard: Handle, serial: u32, surface: Handle },
    /// `wl_keyboard.modifiers`
    KeyboardModifiers {
        keyboard: Handle,
        serial: u32,
        depressed: u32,
        latched: u32,
        locked: u32,
        group: u32,
    },
    /// `wl_keyboard.key`
    KeyboardKey { keyboard: Handle, serial: u32, time: u32, key: u32, state: PressState },
    /// `wl_pointer.enter`
    PointerEnter { pointer: Handle, serial: u32, surface: Handle, x: Fixed, y: Fixed },
    /// `wl_pointer.leave`
    PointerLeave { pointer: Handle, serial: u32, surface: Handle },
    /// `wl_pointer.motion`
    PointerMotion { pointer: Handle, time: u32, x: Fixed, y: Fixed },
    /// `wl_pointer.button`
    PointerButton { pointer: Handle, serial: u32, time: u32, button: u32, state: PressState },
    /// `wl_pointer.axis`, on the vertical axis
    PointerAxis { pointer: Handle, time: u32, value: Fixed },
    /// `wl_pointer.frame`
    PointerFrame { pointer: Handle },
    /// `wl_data_source.cancelled`
    DataSourceCancelled { source: Handle },
    /// `wl_data_source.send`; the descriptor is handed over with the action
    DataSourceSend { source: Handle, mime: String },
    /// `wl_data_device.data_offer`
    DataDeviceOffer { device: Handle, offer: Handle },
    /// `wl_data_device.selection`
    DataDeviceSelection { device: Handle, offer: Option<Handle> },
    /// `wl_data_offer.offer`
    DataOfferMime { offer: Handle, mime: String },
    /// `xdg_toplevel.configure`
    ToplevelConfigure { toplevel: Handle, width: i32, height: i32, activated: bool },
    /// `xdg_toplevel.wm_capabilities`, with none
    ToplevelWmCapabilities { toplevel: Handle },
    /// `xdg_surface.configure`
    XdgSurfaceConfigure { xdg_surface: Handle, serial: u32 },
    /// `xdg_popup.configure`
    PopupConfigure { popup: Handle, x: i32, y: i32, width: i32, height: i32 },
    /// `xdg_popup.repositioned`
    PopupRepositioned { popup: Handle, token: u32 },
    /// `ewc_debugger_v1.frame_stat`
    DebugFrameStat { debugger: Handle, nanos: u32 },
    /// `ewc_debugger_v1.massage`
    DebugMessage { debugger: Handle, message: String },
}

} // verus!
