//! Toplevel windows.
use vstd::prelude::*;

use crate::globals::xdg_shell::WindowGeometry;
use crate::protocol::{Action, Handle, ResizeEdge};

verus! {

/// A size and state that the client is asked to take on.
#[derive(Debug, Clone, Copy, PartialEq, Eq, Structural)]
pub struct ToplevelConfigure {
    pub serial: u32,
    pub width: u32,
    pub heinght: u32,
    pub activated: bool,
}

/// State of a toplevel that takes effect on commit.
#[derive(Debug)]
pub struct XdgToplevelState {
    pub app_id: Option<Vec<u8>>,
    pub title: Option<Vec<u8>>,
    pub min_size: Option<(u32, u32)>,
    pub max_size: Option<(u32, u32)>,
}

/// A toplevel window.
#[derive(Debug)]
pub struct XdgToplevelRole {
    pub wl: Handle,
    pub x: i32,
    pub y: i32,
    /// The edge that is being dragged, the point that stays, and the serial of the last request.
    pub resizing: Option<(ResizeEdge, i32, i32, u32)>,
    pub cur_configure: ToplevelConfigure,
    pub pending_configure: Option<ToplevelConfigure>,
    pub cur: XdgToplevelState,
    pub pending: XdgToplevelState,
    pub dirty_app_id: bool,
    pub dirty_title: bool,
    pub dirty_min_size: bool,
    pub dirty_max_size: bool,
}

/// The configure event that says nothing yet.
pub open spec fn no_configure() -> ToplevelConfigure {
    ToplevelConfigure { serial: 0, width: 0, heinght: 0, activated: false }
}

/// The state of a toplevel that the client has said nothing of.
pub open spec fn no_toplevel_state() -> XdgToplevelState {
    XdgToplevelState { app_id: None, title: None, min_size: None, max_size: None }
}

/// A length brought down to `max` and then up to `min`; a limit of zero is none.
pub open spec fn clamp_length(len: u32, min: u32, max: u32) -> u32 {
    let cut = if max != 0 && len > max {
        max
    } else {
        len
    };
    if min != 0 && cut < min {
        min
    } else {
        cut
    }
}

/// A length brought down to `max` and then up to `min`; a limit of zero is none.
fn clamp(len: u32, min: u32, max: u32) -> (r: u32)
    ensures
        r == clamp_length(len, min, max),
{
    let cut: u32 = if max != 0 && len > max {
        max
    } else {
        len
    };
    if min != 0 && cut < min {
        min
    } else {
        cut
    }
}

impl XdgToplevelState {
    /// The smallest allowed size, zero where there is no limit.
    pub open spec fn min(self) -> (u32, u32) {
        match self.min_size {
            Some(s) => s,
            None => (0, 0),
        }
    }

    /// The largest allowed size, zero where there is no limit.
    pub open spec fn max(self) -> (u32, u32) {
        match self.max_size {
            Some(s) => s,
            None => (0, 0),
        }
    }

    /// The size that is asked for when the user asks for `size`.
    pub open spec fn clamped(self, size: (u32, u32)) -> (u32, u32) {
        (clamp_length(size.0, self.min().0, self.max().0), clamp_length(size.1, self.min().1, self.max().1))
    }
}

/// What is asked of a client keeps to the limits that the client has set, where these leave room.
pub proof fn law_size_within_limits(state: XdgToplevelState, size: (u32, u32))
    ensures
        state.min().0 <= state.max().0 && state.max().0 != 0 ==> state.min().0 <= state.clamped(size).0
            <= state.max().0,
        state.min().1 <= state.max().1 && state.max().1 != 0 ==> state.min().1 <= state.clamped(size).1
            <= state.max().1,
        size.0 > 0 && size.1 > 0 ==> state.clamped(size).0 > 0 && state.clamped(size).1 > 0,
{
}

impl XdgToplevelRole {
    /// A toplevel that the client has said nothing of.
    pub open spec fn fresh(wl: Handle) -> XdgToplevelRole {
        XdgToplevelRole {
            wl,
            x: 0,
            y: 0,
            resizing: None,
            cur_configure: no_configure(),
            pending_configure: None,
            cur: no_toplevel_state(),
            pending: no_toplevel_state(),
            dirty_app_id: false,
            dirty_title: false,
            dirty_min_size: false,
            dirty_max_size: false,
        }
    }

    /// A toplevel that the client has said nothing of.
    pub fn new(wl: Handle) -> (r: Self)
        ensures
            r == XdgToplevelRole::fresh(wl),
    {
        Self {
            wl,
            x: 0,
            y: 0,
            resizing: None,
            cur_configure: ToplevelConfigure { serial: 0, width: 0, heinght: 0, activated: false },
            pending_configure: None,
            cur: XdgToplevelState { app_id: None, title: None, min_size: None, max_size: None },
            pending: XdgToplevelState { app_id: None, title: None, min_size: None, max_size: None },
            dirty_app_id: false,
            dirty_title: false,
            dirty_min_size: false,
            dirty_max_size: false,
        }
    }

    /// The events that tell the client what is asked of it.
    pub open spec fn configure_events(self, xdg_surface: Handle) -> Seq<Action> {
        match self.pending_configure {
            None => Seq::empty(),
            Some(c) => seq![
                Action::ToplevelConfigure {
                    toplevel: self.wl,
                    width: c.width as i32,
                    height: c.heinght as i32,
                    activated: c.activated,
                },
                Action::XdgSurfaceConfigure { xdg_surface, serial: c.serial },
            ],
        }
    }

    /// The toplevel after the client was told what is asked of it.
    pub open spec fn configure_sent(self) -> XdgToplevelRole {
        match self.pending_configure {
            None => self,
            Some(c) => XdgToplevelRole { cur_configure: c, pending_configure: None, ..self },
        }
    }

    /// Tells the client what is asked of it, if anything is.
    pub fn apply_pending_configure(&mut self, xdg_surface: Handle, actions: &mut Vec<Action>)
        ensures
            *final(self) == old(self).configure_sent(),
            final(actions)@ == old(actions)@ + old(self).configure_events(xdg_surface),
    {
        let ghost before = actions@;
        if let Some(configure) = self.pending_configure {
            self.pending_configure = None;
            self.cur_configure = configure;
            actions.push(
                Action::ToplevelConfigure {
                    toplevel: self.wl,
                    width: configure.width as i32,
                    height: configure.heinght as i32,
                    activated: configure.activated,
                },
            );
            actions.push(Action::XdgSurfaceConfigure { xdg_surface, serial: configure.serial });
        }
        assert(actions@ =~= before + old(self).configure_events(xdg_surface));
    }

    /// What will be asked of the client next: what already waits, or what was asked last under
    /// the next serial.
    pub open spec fn next_configure(self) -> ToplevelConfigure {
        match self.pending_configure {
            Some(c) => c,
            None => ToplevelConfigure { serial: self.cur_configure.serial.wrapping_add(1), ..self.cur_configure },
        }
    }

    fn get_next_configure(&self) -> (r: ToplevelConfigure)
        ensures
            r == self.next_configure(),
    {
        match self.pending_configure {
            Some(c) => c,
            None => {
                let mut c = self.cur_configure;
                c.serial = c.serial.wrapping_add(1);
                c
            },
        }
    }

    /// The toplevel after it was made or unmade the active one.
    pub open spec fn activation_set(self, value: bool) -> XdgToplevelRole {
        if self.cur_configure.activated != value {
            XdgToplevelRole {
                pending_configure: Some(ToplevelConfigure { activated: value, ..self.next_configure() }),
                ..self
            }
        } else {
            self
        }
    }

    /// Asks the client to show the window as the active one, or not.
    pub fn set_activated(&mut self, value: bool)
        ensures
            *final(self) == old(self).activation_set(value),
    {
        if self.cur_configure.activated != value {
            let mut configure = self.get_next_configure();
            configure.activated = value;
            self.pending_configure = Some(configure);
        }
    }

    /// The toplevel after the user asked for a size by dragging an edge.
    pub open spec fn size_requested(
        self,
        mapped: bool,
        geom: Option<WindowGeometry>,
        edge: ResizeEdge,
        size: (u32, u32),
    ) -> XdgToplevelRole {
        if !mapped {
            self
        } else {
            let (width, height) = self.cur.clamped(size);
            let configure = ToplevelConfigure { width, heinght: height, ..self.next_configure() };
            let (px, py) = match self.resizing {
                None => {
                    let (nx, ny) = geom->0.opposite_edge_point(edge);
                    (nx.wrapping_add(self.x), ny.wrapping_add(self.y))
                },
                Some(r) => (r.1, r.2),
            };
            XdgToplevelRole {
                pending_configure: Some(configure),
                resizing: Some((edge, px, py, configure.serial)),
                ..self
            }
        }
    }

    /// Whether a size can be asked for by dragging `edge`: a window that is mapped has a geometry,
    /// and no other edge is being dragged.
    pub open spec fn can_request_size(self, mapped: bool, geom: Option<WindowGeometry>, edge: ResizeEdge) -> bool {
        mapped ==> match self.resizing {
            None => geom is Some,
            Some(r) => r.0 == edge,
        }
    }

    /// Asks for a size on behalf of the user, who drags an edge.
    pub fn request_size(
        &mut self,
        mapped: bool,
        geom: Option<WindowGeometry>,
        edge: ResizeEdge,
        width: u32,
        height: u32,
    )
        requires
            width > 0,
            height > 0,
            old(self).can_request_size(mapped, geom, edge),
        ensures
            *final(self) == old(self).size_requested(mapped, geom, edge, (width, height)),
    {
        if !mapped {
            return ;
        }
        let (min_w, min_h) = match self.cur.min_size {
            Some(s) => s,
            None => (0, 0),
        };
        let (max_w, max_h) = match self.cur.max_size {
            Some(s) => s,
            None => (0, 0),
        };
        let mut configure = self.get_next_configure();
        configure.width = clamp(width, min_w, max_w);
        configure.heinght = clamp(height, min_h, max_h);
        let serial: u32 = configure.serial;
        self.pending_configure = Some(configure);
        match self.resizing {
            None => {
                let (nx, ny) = geom.unwrap().get_opposite_edge_point(edge);
                self.resizing = Some((edge, nx.wrapping_add(self.x), ny.wrapping_add(self.y), serial));
            },
            Some((_, onx, ony, _)) => {
                self.resizing = Some((edge, onx, ony, serial));
            },
        }
    }

    /// The toplevel after its own pending state took effect. The title keeps following what the
    /// client has set since the last commit once it was set for the first time.
    pub open spec fn state_committed(self) -> XdgToplevelRole {
        XdgToplevelRole {
            cur: XdgToplevelState {
                app_id: if self.dirty_app_id {
                    self.pending.app_id
                } else {
                    self.cur.app_id
                },
                title: if self.dirty_title {
                    self.pending.title
                } else {
                    self.cur.title
                },
                min_size: if self.dirty_min_size {
                    self.pending.min_size
                } else {
                    self.cur.min_size
                },
                max_size: if self.dirty_max_size {
                    self.pending.max_size
                } else {
                    self.cur.max_size
                },
            },
            pending: XdgToplevelState {
                app_id: if self.dirty_app_id {
                    None
                } else {
                    self.pending.app_id
                },
                title: if self.dirty_title {
                    None
                } else {
                    self.pending.title
                },
                ..self.pending
            },
            dirty_app_id: false,
            dirty_min_size: false,
            dirty_max_size: false,
            ..self
        }
    }

    /// Lets the toplevel's own pending state take effect.
    pub fn commit_state(&mut self)
        ensures
            *final(self) == old(self).state_committed(),
    {
        if self.dirty_app_id {
            self.dirty_app_id = false;
            self.cur.app_id = self.pending.app_id.take();
        }
        if self.dirty_title {
            self.dirty_app_id = false;
            self.cur.title = self.pending.title.take();
        }
        if self.dirty_min_size {
            self.dirty_min_size = false;
            self.cur.min_size = self.pending.min_size;
        }
        if self.dirty_max_size {
            self.dirty_max_size = false;
            self.cur.max_size = self.pending.max_size;
        }
    }

    /// The serial of the first configure event.
    pub open spec fn initial_serial(self) -> u32 {
        self.cur_configure.serial.wrapping_add(1)
    }

    /// The events that answer the first commit.
    pub open spec fn initial_events(self, xdg_surface: Handle) -> Seq<Action> {
        seq![
            Action::ToplevelConfigure { toplevel: self.wl, width: 0, height: 0, activated: false },
            Action::XdgSurfaceConfigure { xdg_surface, serial: self.initial_serial() },
        ]
    }

    /// The toplevel after the first commit was answered.
    pub open spec fn initially_configured(self) -> XdgToplevelRole {
        XdgToplevelRole {
            pending_configure: None,
            cur_configure: ToplevelConfigure { serial: self.initial_serial(), width: 0, heinght: 0, activated: false },
            ..self
        }
    }

    /// Answers the first commit, which has no buffer.
    pub fn send_initial_configure(&mut self, xdg_surface: Handle, actions: &mut Vec<Action>)
        ensures
            *final(self) == old(self).initially_configured(),
            final(actions)@ == old(actions)@ + old(self).initial_events(xdg_surface),
    {
        let ghost before = actions@;
        let serial: u32 = self.cur_configure.serial.wrapping_add(1);
        actions.push(Action::ToplevelConfigure { toplevel: self.wl, width: 0, height: 0, activated: false });
        actions.push(Action::XdgSurfaceConfigure { xdg_surface, serial });
        self.pending_configure = None;
        self.cur_configure = ToplevelConfigure { serial, width: 0, heinght: 0, activated: false };
        assert(actions@ =~= before + old(self).initial_events(xdg_surface));
    }

    /// Whether `acked` is `serial` or comes after it. Serials wrap around.
    pub open spec fn reached(acked: Option<u32>, serial: u32) -> bool {
        acked matches Some(a) && a.wrapping_sub(serial) < 0x8000_0000
    }

    /// The toplevel after a commit while an edge is dragged: the point opposite of the edge stays,
    /// and once the client has acknowledged the last request the dragging is over.
    pub open spec fn resize_committed(self, geom: WindowGeometry, acked: Option<u32>) -> XdgToplevelRole {
        match self.resizing {
            None => self,
            Some(r) => {
                let (nx, ny) = geom.opposite_edge_point(r.0);
                XdgToplevelRole {
                    x: r.1.wrapping_sub(nx),
                    y: r.2.wrapping_sub(ny),
                    resizing: if XdgToplevelRole::reached(acked, r.3) {
                        None
                    } else {
                        self.resizing
                    },
                    ..self
                }
            },
        }
    }

    /// Keeps the point opposite of a dragged edge where it is when the client has committed.
    pub fn commit_resize(&mut self, geom: WindowGeometry, acked: Option<u32>)
        ensures
            *final(self) == old(self).resize_committed(geom, acked),
    {
        if let Some((edge, x, y, serial)) = self.resizing {
            let (nx, ny) = geom.get_opposite_edge_point(edge);
            self.x = x.wrapping_sub(nx);
            self.y = y.wrapping_sub(ny);
            if let Some(a) = acked {
                if a.wrapping_sub(serial) < 0x8000_0000 {
                    self.resizing = None;
                }
            }
        }
    }
}

/// What happens to a toplevel while one of its edges is dragged.
pub enum DragStep {
    /// The user asks for a size.
    Request { geom: Option<WindowGeometry>, size: (u32, u32) },
    /// The client commits, with a geometry, and after it acknowledged a serial.
    Commit { geom: WindowGeometry, acked: Option<u32> },
    /// The client is told what is asked of it.
    Configure,
    /// The toplevel is made or unmade the active one.
    Activate(bool),
}

impl XdgToplevelRole {
    /// The toplevel after a step.
    pub open spec fn stepped(self, edge: ResizeEdge, step: DragStep) -> XdgToplevelRole {
        match step {
            DragStep::Request { geom, size } => self.size_requested(true, geom, edge, size),
            DragStep::Commit { geom, acked } => self.state_committed().resize_committed(geom, acked),
            DragStep::Configure => self.configure_sent(),
            DragStep::Activate(value) => self.activation_set(value),
        }
    }

    /// The toplevel after steps.
    pub open spec fn dragged(self, edge: ResizeEdge, steps: Seq<DragStep>) -> XdgToplevelRole
        decreases steps.len(),
    {
        if steps.len() == 0 {
            self
        } else {
            self.dragged(edge, steps.drop_last()).stepped(edge, steps.last())
        }
    }

    /// Whether the dragging goes on through all steps.
    pub open spec fn drag_goes_on(self, edge: ResizeEdge, steps: Seq<DragStep>) -> bool
        decreases steps.len(),
    {
        &&& self.dragged(edge, steps).resizing is Some
        &&& steps.len() > 0 ==> self.drag_goes_on(edge, steps.drop_last())
    }

    /// The serial of the last request for a size, where `first` is that of the one before all steps.
    pub open spec fn latest_request(self, edge: ResizeEdge, steps: Seq<DragStep>, first: u32) -> u32
        decreases steps.len(),
    {
        if steps.len() == 0 {
            first
        } else if steps.last() is Request {
            self.dragged(edge, steps.drop_last()).next_configure().serial
        } else {
            self.latest_request(edge, steps.drop_last(), first)
        }
    }
}

/// While an edge is dragged, the point of the window opposite of the edge stays where it was when the
/// dragging began, whatever sizes are asked for and whatever sizes the client takes on. A commit ends
/// the dragging if and only if the client has acknowledged the last request for a size or a later one.
pub proof fn law_resize_keeps_opposite_point(
    t: XdgToplevelRole,
    start: WindowGeometry,
    edge: ResizeEdge,
    size: (u32, u32),
    steps: Seq<DragStep>,
    end: WindowGeometry,
    acked: Option<u32>,
)
    requires
        t.resizing is None,
        t.size_requested(true, Some(start), edge, size).drag_goes_on(edge, steps),
    ensures
        ({
            let begun = t.size_requested(true, Some(start), edge, size);
            let after = begun.dragged(edge, steps).state_committed().resize_committed(end, acked);
            let p = start.opposite_edge_point(edge);
            let q = end.opposite_edge_point(edge);
            let latest = begun.latest_request(edge, steps, t.next_configure().serial);
            &&& after.x.wrapping_add(q.0) == p.0.wrapping_add(t.x)
            &&& after.y.wrapping_add(q.1) == p.1.wrapping_add(t.y)
            &&& after.resizing is None == XdgToplevelRole::reached(acked, latest)
            &&& begun.dragged(edge, steps).resizing == Some(
                (edge, p.0.wrapping_add(t.x), p.1.wrapping_add(t.y), latest),
            )
        }),
    decreases steps.len(),
{
    if steps.len() > 0 {
        law_resize_keeps_opposite_point(t, start, edge, size, steps.drop_last(), end, acked);
    }
}

} // verus!
