//! Where popups are placed.
use vstd::prelude::*;

use crate::error::Error;
use crate::protocol::{Anchor, ConstraintAdjustment, Gravity};

verus! {

/// A complete set of rules for placing a popup.
#[derive(Debug, Clone, Copy, PartialEq, Eq)]
pub struct Positioner {
    pub size: (u32, u32),
    pub anchor_rect: (i32, i32, i32, i32),
    pub offset: (i32, i32),
    pub anchor: Option<Anchor>,
    pub gravity: Option<Gravity>,
    pub contraint_adjustment: ConstraintAdjustment,
    pub reactive: bool,
}

/// Rules for placing a popup as far as the client has given them.
#[derive(Debug, Clone, Copy, PartialEq, Eq)]
pub struct RawPositioner {
    pub size: Option<(u32, u32)>,
    pub anchor_rect: Option<(i32, i32, i32, i32)>,
    pub offset: (i32, i32),
    pub anchor: Option<Anchor>,
    pub gravity: Option<Gravity>,
    pub contraint_adjustment: ConstraintAdjustment,
    pub reactive: bool,
}

/// Requests on a positioner.
#[derive(Debug, Clone, Copy, PartialEq, Eq, Structural)]
pub enum PositionerRequest {
    Destroy,
    SetSize { width: i32, height: i32 },
    SetAnchorRect { x: i32, y: i32, width: i32, height: i32 },
    SetAnchor(Anchor),
    SetGravity(Gravity),
    SetConstraintAdjustment(ConstraintAdjustment),
    SetOffset { x: i32, y: i32 },
    SetReactive,
    SetParentSize { parent_width: i32, parent_height: i32 },
    SetParentConfigure { serial: u32 },
}

/// Half of a length, rounded towards zero.
pub open spec fn half(v: i32) -> i32 {
    if v >= 0 {
        (v as int / 2) as i32
    } else {
        (-(-(v as int) / 2)) as i32
    }
}

/// Half of a length, rounded towards zero.
fn half_of(v: i32) -> (r: i32)
    ensures
        r == half(v),
{
    if v >= 0 {
        v / 2
    } else if v == i32::MIN {
        -1073741824
    } else {
        -(-v / 2)
    }
}

impl Anchor {
    /// -1 for the left edge, 1 for the right edge, 0 for the middle.
    pub open spec fn horizontal(self) -> int {
        match self {
            Anchor::Left | Anchor::TopLeft | Anchor::BottomLeft => -1,
            Anchor::Right | Anchor::TopRight | Anchor::BottomRight => 1,
            _ => 0,
        }
    }

    /// -1 for the upper edge, 1 for the lower edge, 0 for the middle.
    pub open spec fn vertical(self) -> int {
        match self {
            Anchor::Top | Anchor::TopLeft | Anchor::TopRight => -1,
            Anchor::Bottom | Anchor::BottomLeft | Anchor::BottomRight => 1,
            _ => 0,
        }
    }
}

impl Gravity {
    /// -1 where the popup extends to the left, 1 to the right, 0 to both sides.
    pub open spec fn horizontal(self) -> int {
        match self {
            Gravity::Left | Gravity::TopLeft | Gravity::BottomLeft => -1,
            Gravity::Right | Gravity::TopRight | Gravity::BottomRight => 1,
            _ => 0,
        }
    }

    /// -1 where the popup extends upwards, 1 downwards, 0 both ways.
    pub open spec fn vertical(self) -> int {
        match self {
            Gravity::Top | Gravity::TopLeft | Gravity::TopRight => -1,
            Gravity::Bottom | Gravity::BottomLeft | Gravity::BottomRight => 1,
            _ => 0,
        }
    }
}

/// The start, the middle or the end of a line from `start` of length `len`.
pub open spec fn anchor_point(start: i32, len: i32, side: int) -> i32 {
    if side < 0 {
        start
    } else if side > 0 {
        start.wrapping_add(len)
    } else {
        start.wrapping_add(half(len))
    }
}

/// Where something of length `len` starts that ends at, starts at or is centred on `at`.
pub open spec fn gravity_start(at: i32, len: i32, side: int) -> i32 {
    if side < 0 {
        at.wrapping_sub(len)
    } else if side > 0 {
        at
    } else {
        at.wrapping_sub(half(len))
    }
}

impl RawPositioner {
    /// A positioner that nothing is known of.
    pub fn new() -> (r: Self)
        ensures
            r == (RawPositioner {
                size: None,
                anchor_rect: None,
                offset: (0, 0),
                anchor: None,
                gravity: None,
                contraint_adjustment: ConstraintAdjustment(0),
                reactive: false,
            }),
    {
        Self {
            size: None,
            anchor_rect: None,
            offset: (0, 0),
            anchor: None,
            gravity: None,
            contraint_adjustment: ConstraintAdjustment(0),
            reactive: false,
        }
    }

    /// Whether the size, if there is one, can be that of a popup.
    pub open spec fn wf(self) -> bool {
        self.size matches Some(s) ==> s.0 > 0 && s.1 > 0
    }
}

/// The positioner after a request other than `Destroy`, or the reason for which it is refused.
pub open spec fn positioner_after(p: RawPositioner, request: PositionerRequest) -> Result<RawPositioner, Error> {
    match request {
        PositionerRequest::Destroy => Ok(p),
        PositionerRequest::SetSize { width, height } => if width <= 0 || height <= 0 {
            Err(Error::PositionerInvalidSize)
        } else {
            Ok(RawPositioner { size: Some((width as u32, height as u32)), ..p })
        },
        PositionerRequest::SetAnchorRect { x, y, width, height } => Ok(
            RawPositioner { anchor_rect: Some((x, y, width, height)), ..p },
        ),
        PositionerRequest::SetAnchor(anchor) => Ok(RawPositioner { anchor: Some(anchor), ..p }),
        PositionerRequest::SetGravity(gravity) => Ok(RawPositioner { gravity: Some(gravity), ..p }),
        PositionerRequest::SetConstraintAdjustment(adjustment) => Ok(
            RawPositioner { contraint_adjustment: adjustment, ..p },
        ),
        PositionerRequest::SetOffset { x, y } => Ok(RawPositioner { offset: (x, y), ..p }),
        PositionerRequest::SetReactive => Ok(RawPositioner { reactive: true, ..p }),
        PositionerRequest::SetParentSize { .. } => Ok(p),
        PositionerRequest::SetParentConfigure { .. } => Ok(p),
    }
}

/// Handles a request on a positioner. After `Destroy` the slot is empty.
pub fn xdg_positioner_cb(slot: &mut Option<RawPositioner>, request: PositionerRequest) -> (r: Result<(), Error>)
    requires
        *old(slot) is Some,
    ensures
        request is Destroy ==> *final(slot) is None && r is Ok,
        request !is Destroy ==> match positioner_after(old(slot)->0, request) {
            Ok(p) => r is Ok && *final(slot) == Some(p),
            Err(e) => r == Err::<(), Error>(e) && *final(slot) == *old(slot),
        },
        old(slot)->0.wf() && *final(slot) is Some ==> final(slot)->0.wf(),
{
    let mut p: RawPositioner = slot.unwrap();
    match request {
        PositionerRequest::Destroy => {
            *slot = None;
            return Ok(());
        },
        PositionerRequest::SetSize { width, height } => {
            if width <= 0 || height <= 0 {
                return Err(Error::PositionerInvalidSize);
            }
            p.size = Some((width as u32, height as u32));
        },
        PositionerRequest::SetAnchorRect { x, y, width, height } => {
            p.anchor_rect = Some((x, y, width, height));
        },
        PositionerRequest::SetAnchor(anchor) => {
            p.anchor = Some(anchor);
        },
        PositionerRequest::SetGravity(gravity) => {
            p.gravity = Some(gravity);
        },
        PositionerRequest::SetConstraintAdjustment(adjustment) => {
            p.contraint_adjustment = adjustment;
        },
        PositionerRequest::SetOffset { x, y } => {
            p.offset = (x, y);
        },
        PositionerRequest::SetReactive => {
            p.reactive = true;
        },
        PositionerRequest::SetParentSize { .. } => {},
        PositionerRequest::SetParentConfigure { .. } => {},
    }
    *slot = Some(p);
    Ok(())
}

impl Positioner {
    /// The rules as a complete set, if the client has given what must be given.
    pub open spec fn complete(raw: RawPositioner) -> Result<Positioner, Error> {
        match (raw.size, raw.anchor_rect) {
            (None, _) => Err(Error::PositionerSizeNotSet),
            (Some(_), None) => Err(Error::PositionerAnchorRectNotSet),
            (Some(size), Some(anchor_rect)) => Ok(
                Positioner {
                    size,
                    anchor_rect,
                    offset: raw.offset,
                    anchor: raw.anchor,
                    gravity: raw.gravity,
                    contraint_adjustment: raw.contraint_adjustment,
                    reactive: raw.reactive,
                },
            ),
        }
    }

    /// The rules as a complete set, if the client has given what must be given.
    pub fn from_raw(raw: RawPositioner) -> (r: Result<Self, Error>)
        ensures
            r == Positioner::complete(raw),
    {
        let size = match raw.size {
            None => return Err(Error::PositionerSizeNotSet),
            Some(size) => size,
        };
        let anchor_rect = match raw.anchor_rect {
            None => return Err(Error::PositionerAnchorRectNotSet),
            Some(rect) => rect,
        };
        Ok(
            Self {
                size,
                anchor_rect,
                offset: raw.offset,
                anchor: raw.anchor,
                gravity: raw.gravity,
                contraint_adjustment: raw.contraint_adjustment,
                reactive: raw.reactive,
            },
        )
    }

    /// The upper left corner of the popup relative to the window geometry of its parent.
    pub open spec fn position(self) -> (i32, i32) {
        let (ax, ay, aw, ah) = self.anchor_rect;
        let anchor = match self.anchor {
            Some(a) => a,
            None => Anchor::Center,
        };
        let gravity = match self.gravity {
            Some(g) => g,
            None => Gravity::Center,
        };
        (
            gravity_start(anchor_point(ax, aw, anchor.horizontal()), self.size.0 as i32, gravity.horizontal()),
            gravity_start(anchor_point(ay, ah, anchor.vertical()), self.size.1 as i32, gravity.vertical()),
        )
    }

    /// The upper left corner of the popup relative to the window geometry of its parent.
    pub fn get_position(&self) -> (r: (i32, i32))
        ensures
            r == self.position(),
    {
        let (ax, ay, aw, ah) = self.anchor_rect;
        let anchor = match self.anchor {
            Some(a) => a,
            None => Anchor::Center,
        };
        let mid_x: i32 = ax.wrapping_add(half_of(aw));
        let mid_y: i32 = ay.wrapping_add(half_of(ah));
        let right: i32 = ax.wrapping_add(aw);
        let bottom: i32 = ay.wrapping_add(ah);
        let (x, y): (i32, i32) = match anchor {
            Anchor::Center => (mid_x, mid_y),
            Anchor::Top => (mid_x, ay),
            Anchor::Bottom => (mid_x, bottom),
            Anchor::Left => (ax, mid_y),
            Anchor::Right => (right, mid_y),
            Anchor::TopLeft => (ax, ay),
            Anchor::BottomLeft => (ax, bottom),
            Anchor::TopRight => (right, ay),
            Anchor::BottomRight => (right, bottom),
        };
        let w: i32 = self.size.0 as i32;
        let h: i32 = self.size.1 as i32;
        let mid_x: i32 = x.wrapping_sub(half_of(w));
        let mid_y: i32 = y.wrapping_sub(half_of(h));
        let left: i32 = x.wrapping_sub(w);
        let top: i32 = y.wrapping_sub(h);
        let gravity = match self.gravity {
            Some(g) => g,
            None => Gravity::Center,
        };
        match gravity {
            Gravity::Center => (mid_x, mid_y),
            Gravity::Top => (mid_x, top),
            Gravity::Bottom => (mid_x, y),
            Gravity::Left => (left, mid_y),
            Gravity::Right => (x, mid_y),
            Gravity::TopLeft => (left, top),
            Gravity::BottomLeft => (left, y),
            Gravity::TopRight => (x, top),
            Gravity::BottomRight => (x, y),
        }
    }
}

/// Whether a point is at the start, at the end or in the middle of a line, rounded towards the start.
pub open spec fn lies_on(at: i32, start: i32, len: i32, at_start: bool, at_end: bool) -> bool {
    if at_start {
        at == start
    } else if at_end {
        at == start.wrapping_add(len)
    } else {
        let before = at.wrapping_sub(start);
        let after = len - before;
        &&& -1 <= after - before <= 1
        &&& len >= 0 ==> before <= after
        &&& len <= 0 ==> before >= after
    }
}

/// Whether a point is the middle, the corner or the middle of the side of the anchor rectangle that the anchor
/// names.
pub open spec fn is_anchor_point(p: Positioner, x: i32, y: i32) -> bool {
    &&& lies_on(
        x,
        p.anchor_rect.0,
        p.anchor_rect.2,
        p.anchor == Some(Anchor::Left) || p.anchor == Some(Anchor::TopLeft) || p.anchor == Some(Anchor::BottomLeft),
        p.anchor == Some(Anchor::Right) || p.anchor == Some(Anchor::TopRight) || p.anchor == Some(Anchor::BottomRight),
    )
    &&& lies_on(
        y,
        p.anchor_rect.1,
        p.anchor_rect.3,
        p.anchor == Some(Anchor::Top) || p.anchor == Some(Anchor::TopLeft) || p.anchor == Some(Anchor::TopRight),
        p.anchor == Some(Anchor::Bottom) || p.anchor == Some(Anchor::BottomLeft) || p.anchor == Some(
            Anchor::BottomRight,
        ),
    )
}

/// Whether a popup whose upper left corner is at `at` hangs on a point: with a gravity towards the right its left
/// edge is there, with one towards the left its right edge, with one towards the bottom its upper edge, with one
/// towards the top its lower edge, and else its middle.
pub open spec fn hangs_on(p: Positioner, at: (i32, i32), x: i32, y: i32) -> bool {
    &&& lies_on(
        x,
        at.0,
        p.size.0 as i32,
        p.gravity == Some(Gravity::Right) || p.gravity == Some(Gravity::TopRight) || p.gravity == Some(
            Gravity::BottomRight,
        ),
        p.gravity == Some(Gravity::Left) || p.gravity == Some(Gravity::TopLeft) || p.gravity == Some(
            Gravity::BottomLeft,
        ),
    )
    &&& lies_on(
        y,
        at.1,
        p.size.1 as i32,
        p.gravity == Some(Gravity::Bottom) || p.gravity == Some(Gravity::BottomLeft) || p.gravity == Some(
            Gravity::BottomRight,
        ),
        p.gravity == Some(Gravity::Top) || p.gravity == Some(Gravity::TopLeft) || p.gravity == Some(Gravity::TopRight),
    )
}

/// A popup hangs on the point of its anchor rectangle that its anchor names, on the side that its gravity names.
pub proof fn law_popup_hangs_on_its_anchor(p: Positioner)
    ensures
        exists|x: i32, y: i32| #[trigger] is_anchor_point(p, x, y) && hangs_on(p, p.position(), x, y),
{
    let (x, y, w, h) = p.anchor_rect;
    let anchor = match p.anchor {
        Some(a) => a,
        None => Anchor::Center,
    };
    let ax = anchor_point(x, w, anchor.horizontal());
    let ay = anchor_point(y, h, anchor.vertical());
    assert(is_anchor_point(p, ax, ay));
}

/// There is one place only where a popup hangs on a point.
pub proof fn law_popup_has_one_place(p: Positioner, x: i32, y: i32, at: (i32, i32), other: (i32, i32))
    requires
        hangs_on(p, at, x, y),
        hangs_on(p, other, x, y),
    ensures
        at == other,
{
}

} // verus!
