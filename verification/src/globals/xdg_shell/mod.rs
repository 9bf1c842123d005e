//! Windows: the part of a surface that counts as the window, toplevels and popups.
use vstd::prelude::*;

use crate::protocol::{Handle, ResizeEdge};

pub mod popup;
pub mod positioner;
pub mod requests;
pub mod toplevel;

use popup::XdgPopupRole;
use toplevel::XdgToplevelRole;

verus! {

/// A rectangle given by its corners.
#[derive(Debug, Clone, Copy, PartialEq, Eq, Structural)]
pub struct Box32 {
    pub x1: i32,
    pub y1: i32,
    pub x2: i32,
    pub y2: i32,
}

impl Box32 {
    /// The smallest box that holds this box and `other` moved by `by`.
    pub open spec fn extended(self, other: Box32, by: (i32, i32)) -> Box32 {
        Box32 {
            x1: min_i32(self.x1, by.0.wrapping_add(other.x1)),
            y1: min_i32(self.y1, by.1.wrapping_add(other.y1)),
            x2: max_i32(self.x2, by.0.wrapping_add(other.x2)),
            y2: max_i32(self.y2, by.1.wrapping_add(other.y2)),
        }
    }

    /// The smallest box that holds this box and `other` moved by `by`.
    pub fn extend(self, other: Box32, by: (i32, i32)) -> (r: Self)
        ensures
            r == self.extended(other, by),
    {
        let x1: i32 = by.0.wrapping_add(other.x1);
        let y1: i32 = by.1.wrapping_add(other.y1);
        let x2: i32 = by.0.wrapping_add(other.x2);
        let y2: i32 = by.1.wrapping_add(other.y2);
        Self {
            x1: if self.x1 <= x1 { self.x1 } else { x1 },
            y1: if self.y1 <= y1 { self.y1 } else { y1 },
            x2: if self.x2 >= x2 { self.x2 } else { x2 },
            y2: if self.y2 >= y2 { self.y2 } else { y2 },
        }
    }

    /// The part that the two boxes have in common. The corners are crossed where there is none.
    pub open spec fn common(self, other: Box32) -> Box32 {
        Box32 {
            x1: max_i32(self.x1, other.x1),
            y1: max_i32(self.y1, other.y1),
            x2: min_i32(self.x2, other.x2),
            y2: min_i32(self.y2, other.y2),
        }
    }

    /// The part that the two boxes have in common.
    pub fn clip(self, other: Box32) -> (r: Self)
        ensures
            r == self.common(other),
    {
        Self {
            x1: if self.x1 >= other.x1 { self.x1 } else { other.x1 },
            y1: if self.y1 >= other.y1 { self.y1 } else { other.y1 },
            x2: if self.x2 <= other.x2 { self.x2 } else { other.x2 },
            y2: if self.y2 <= other.y2 { self.y2 } else { other.y2 },
        }
    }
}

/// The smaller of two numbers.
pub open spec fn min_i32(a: i32, b: i32) -> i32 {
    if a <= b {
        a
    } else {
        b
    }
}

/// The larger of two numbers.
pub open spec fn max_i32(a: i32, b: i32) -> i32 {
    if a >= b {
        a
    } else {
        b
    }
}

/// The part of a surface that counts as the window.
#[derive(Debug, Clone, Copy, PartialEq, Eq, Structural)]
pub struct WindowGeometry {
    pub x: i32,
    pub y: i32,
    pub width: u32,
    pub height: u32,
}

impl WindowGeometry {
    /// Windows are never empty, and their sides fit the signed numbers of the protocol.
    pub open spec fn wf(self) -> bool {
        &&& 0 < self.width <= i32::MAX
        &&& 0 < self.height <= i32::MAX
    }

    /// The point that stays where it is while `edge` is dragged, relative to the window: the far
    /// side of each edge that moves, if that is the upper or the left one.
    pub open spec fn opposite_edge_point(self, edge: ResizeEdge) -> (i32, i32) {
        (
            if edge.has_left() {
                self.width as i32
            } else {
                0
            },
            if edge.has_top() {
                self.height as i32
            } else {
                0
            },
        )
    }

    /// The point that stays where it is while `edge` is dragged, relative to the window.
    pub fn get_opposite_edge_point(&self, edge: ResizeEdge) -> (r: (i32, i32))
        ensures
            r == self.opposite_edge_point(edge),
    {
        let mut nx: i32 = 0;
        let mut ny: i32 = 0;
        if edge.top() {
            ny = self.height as i32;
        }
        if edge.left() {
            nx = self.width as i32;
        }
        (nx, ny)
    }

    /// The window that fills a box, unless the box is empty.
    pub open spec fn of_box(bbox: Box32) -> Option<WindowGeometry> {
        let width = bbox.x2.wrapping_sub(bbox.x1);
        let height = bbox.y2.wrapping_sub(bbox.y1);
        if width > 0 && height > 0 {
            Some(WindowGeometry { x: bbox.x1, y: bbox.y1, width: width as u32, height: height as u32 })
        } else {
            None
        }
    }

    /// The window that fills a box, unless the box is empty.
    pub fn from_box(bbox: Box32) -> (r: Option<Self>)
        ensures
            r == WindowGeometry::of_box(bbox),
            r matches Some(g) ==> g.wf(),
    {
        let width: i32 = bbox.x2.wrapping_sub(bbox.x1);
        let height: i32 = bbox.y2.wrapping_sub(bbox.y1);
        if width > 0 && height > 0 {
            Some(WindowGeometry { x: bbox.x1, y: bbox.y1, width: width as u32, height: height as u32 })
        } else {
            None
        }
    }

    /// The box that the window fills.
    pub open spec fn as_box(self) -> Box32 {
        Box32 {
            x1: self.x,
            y1: self.y,
            x2: self.x.wrapping_add(self.width as i32),
            y2: self.y.wrapping_add(self.height as i32),
        }
    }

    /// The box that the window fills.
    pub fn to_box(self) -> (r: Box32)
        ensures
            r == self.as_box(),
    {
        Box32 {
            x1: self.x,
            y1: self.y,
            x2: self.x.wrapping_add(self.width as i32),
            y2: self.y.wrapping_add(self.height as i32),
        }
    }
}

/// A window survives the way to a box and back, if it ends within the coordinates.
pub proof fn law_geometry_box_round_trip(g: WindowGeometry)
    requires
        g.wf(),
        g.x + g.width <= i32::MAX,
        g.y + g.height <= i32::MAX,
    ensures
        WindowGeometry::of_box(g.as_box()) == Some(g),
{
}

/// State of an xdg surface that takes effect on commit.
#[derive(Debug, Clone, Copy, PartialEq, Eq, Structural)]
pub struct XdgSurfaceState {
    pub window_geometry: Option<WindowGeometry>,
}

/// What a window is.
#[derive(Debug)]
pub enum SpecificRole {
    NoRole,
    Toplevel(XdgToplevelRole),
    Popup(XdgPopupRole),
}

/// The role of a surface that is a window.
#[derive(Debug)]
pub struct XdgSurfaceRole {
    pub wl: Handle,
    pub specific: SpecificRole,
    pub last_acked_configure: Option<u32>,
    pub cur: XdgSurfaceState,
    pub pending: XdgSurfaceState,
    pub effective_window_geometry: Option<WindowGeometry>,
    pub popup: Option<usize>,
}

impl XdgSurfaceRole {
    /// A window that nothing is known of.
    pub open spec fn fresh(wl: Handle) -> XdgSurfaceRole {
        XdgSurfaceRole {
            wl,
            specific: SpecificRole::NoRole,
            last_acked_configure: None,
            cur: XdgSurfaceState { window_geometry: None },
            pending: XdgSurfaceState { window_geometry: None },
            effective_window_geometry: None,
            popup: None,
        }
    }

    /// A window that nothing is known of.
    pub fn new(wl: Handle) -> (r: Self)
        ensures
            r == XdgSurfaceRole::fresh(wl),
    {
        Self {
            wl,
            specific: SpecificRole::NoRole,
            last_acked_configure: None,
            cur: XdgSurfaceState { window_geometry: None },
            pending: XdgSurfaceState { window_geometry: None },
            effective_window_geometry: None,
            popup: None,
        }
    }

    /// The part of the surface that counts as the window.
    pub fn get_window_geometry(&self) -> (r: Option<WindowGeometry>)
        ensures
            r == self.effective_window_geometry,
    {
        self.effective_window_geometry
    }

    /// The toplevel that the window is, if it is one.
    pub fn get_toplevel(&self) -> (r: Option<&XdgToplevelRole>)
        ensures
            match self.specific {
                SpecificRole::Toplevel(t) => r == Some(&t),
                _ => r is None,
            },
    {
        match &self.specific {
            SpecificRole::Toplevel(tl) => Some(tl),
            _ => None,
        }
    }

    /// Whether all geometries are those of windows.
    pub open spec fn wf(self) -> bool {
        &&& self.cur.window_geometry matches Some(g) ==> g.wf()
        &&& self.pending.window_geometry matches Some(g) ==> g.wf()
        &&& self.effective_window_geometry matches Some(g) ==> g.wf()
        &&& self.specific matches SpecificRole::Popup(p) ==> p.positioner.size.0 > 0 && p.positioner.size.1 > 0
    }

    /// The window after the surface was committed with the bounding box `bbox`: a new geometry
    /// is cut to the box, and where none was ever set the window fills the box.
    pub open spec fn geometry_committed(self, bbox: Option<Box32>) -> XdgSurfaceRole {
        let set = match self.pending.window_geometry {
            Some(geom) => {
                let cut = WindowGeometry::of_box(geom.as_box().common(bbox->0));
                XdgSurfaceRole {
                    pending: XdgSurfaceState { window_geometry: None },
                    cur: XdgSurfaceState { window_geometry: cut },
                    effective_window_geometry: cut,
                    ..self
                }
            },
            None => self,
        };
        if set.cur.window_geometry is None {
            XdgSurfaceRole {
                effective_window_geometry: match bbox {
                    Some(b) => WindowGeometry::of_box(b),
                    None => None,
                },
                ..set
            }
        } else {
            set
        }
    }

    /// Whether a geometry that waits for a commit has a part inside the bounding box.
    pub open spec fn geometry_fits(self, bbox: Option<Box32>) -> bool {
        self.pending.window_geometry matches Some(geom) ==> bbox is Some && WindowGeometry::of_box(
            geom.as_box().common(bbox->0),
        ) is Some
    }

    /// Whether a geometry that waits for a commit has a part inside the bounding box.
    pub fn check_geometry(&self, bbox: Option<Box32>) -> (r: bool)
        ensures
            r == self.geometry_fits(bbox),
    {
        match self.pending.window_geometry {
            None => true,
            Some(geom) => match bbox {
                None => false,
                Some(b) => WindowGeometry::from_box(geom.to_box().clip(b)).is_some(),
            },
        }
    }

    /// Whether the window has a geometry after a commit.
    pub fn has_geometry_after(&self, bbox: Option<Box32>) -> (r: bool)
        requires
            self.geometry_fits(bbox),
        ensures
            r == (self.geometry_committed(bbox).effective_window_geometry is Some),
    {
        if self.pending.window_geometry.is_some() {
            true
        } else if self.cur.window_geometry.is_some() {
            self.effective_window_geometry.is_some()
        } else {
            match bbox {
                Some(b) => WindowGeometry::from_box(b).is_some(),
                None => false,
            }
        }
    }

    /// Brings the geometry up to date when the surface is committed.
    pub fn commit_geometry(&mut self, bbox: Option<Box32>)
        requires
            old(self).geometry_fits(bbox),
        ensures
            *final(self) == old(self).geometry_committed(bbox),
            old(self).wf() ==> final(self).wf(),
    {
        if let Some(geom) = self.pending.window_geometry {
            self.pending.window_geometry = None;
            if let Some(b) = bbox {
                let cut = WindowGeometry::from_box(geom.to_box().clip(b));
                self.effective_window_geometry = cut;
                self.cur.window_geometry = cut;
            }
        }
        if self.cur.window_geometry.is_none() {
            self.effective_window_geometry = match bbox {
                Some(b) => WindowGeometry::from_box(b),
                None => None,
            };
        }
    }
}

/// While an edge is dragged, the side of the window across from it stays: dragging the left edge, the right side,
/// and so on. Of a direction in which no edge is dragged, the left side or the upper side stays.
pub proof fn law_opposite_side_stays(g: WindowGeometry, edge: ResizeEdge)
    ensures
        edge == ResizeEdge::Left || edge == ResizeEdge::TopLeft || edge == ResizeEdge::BottomLeft
            ==> g.opposite_edge_point(edge).0 == g.width as i32,
        edge == ResizeEdge::Right || edge == ResizeEdge::TopRight || edge == ResizeEdge::BottomRight || edge
            == ResizeEdge::Top || edge == ResizeEdge::Bottom || edge == ResizeEdge::NoEdge
            ==> g.opposite_edge_point(edge).0 == 0,
        edge == ResizeEdge::Top || edge == ResizeEdge::TopLeft || edge == ResizeEdge::TopRight
            ==> g.opposite_edge_point(edge).1 == g.height as i32,
        edge == ResizeEdge::Bottom || edge == ResizeEdge::BottomLeft || edge == ResizeEdge::BottomRight || edge
            == ResizeEdge::Left || edge == ResizeEdge::Right || edge == ResizeEdge::NoEdge
            ==> g.opposite_edge_point(edge).1 == 0,
{
}

} // verus!
