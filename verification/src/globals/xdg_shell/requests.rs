//! Requests that make surfaces windows and describe the windows.
use vstd::prelude::*;
use crate::client::ClientId;
use crate::error::Error;
use crate::globals::compositor::{SurfaceRole, SurfaceRoleV, SurfaceV};
use crate::globals::compositor_requests::{compositor_wf, lemma_acyclic_kept, Compositor, CompositorV};
use crate::globals::subsurfaces::{below, lemma_link_acyclic, lemma_unlink_acyclic, others_unchanged, same_windows};
use crate::globals::surfaces::{acyclic, is_child, same_links, surface_wf, surfaces_wf, up};
use crate::globals::xdg_shell::popup::XdgPopupRole;
use crate::globals::xdg_shell::positioner::{
    positioner_after, xdg_positioner_cb, Positioner, PositionerRequest, RawPositioner,
};
use crate::globals::xdg_shell::toplevel::{XdgToplevelRole, XdgToplevelState};
use crate::globals::xdg_shell::{SpecificRole, WindowGeometry, XdgSurfaceRole, XdgSurfaceState};
use crate::protocol::{Action, Handle, Resource};

verus! {

/// Requests on an xdg surface.
#[derive(Debug, Clone, Copy, PartialEq, Eq, Structural)]
pub enum XdgSurfaceRequest {
    Destroy,
    GetToplevel(Resource),
    GetPopup { popup: Handle, parent: usize, positioner: usize },
    SetWindowGeometry { x: i32, y: i32, width: i32, height: i32 },
    AckConfigure(u32),
}

/// Requests that describe a toplevel.
#[derive(Debug)]
pub enum ToplevelStateRequest {
    SetParent,
    SetTitle(Vec<u8>),
    SetAppId(Vec<u8>),
    ShowWindowMenu,
    SetMaxSize { width: i32, height: i32 },
    SetMinSize { width: i32, height: i32 },
    SetMaximized,
    UnsetMaximized,
    SetFullscreen,
    UnsetFullscreen,
    SetMinimized,
}

/// Whether two states of a window are linked to other surfaces in the same way.
pub open spec fn same_window_links(a: XdgSurfaceRole, b: XdgSurfaceRole) -> bool {
    &&& b.wl == a.wl
    &&& b.popup == a.popup
    &&& match (a.specific, b.specific) {
        (SpecificRole::NoRole, SpecificRole::NoRole) => true,
        (SpecificRole::Toplevel(_), SpecificRole::Toplevel(_)) => true,
        (SpecificRole::Popup(x), SpecificRole::Popup(y)) => y.parent == x.parent && y.parent_wl == x.parent_wl,
        _ => false,
    }
}

/// The surface as the window `xdg`.
pub open spec fn with_window(x: SurfaceV, xdg: XdgSurfaceRole) -> SurfaceV {
    SurfaceV { role: SurfaceRoleV::Xdg(xdg), ..x }
}

/// A change of a window that keeps its links keeps what holds between requests.
pub proof fn lemma_window_changes(s: Seq<SurfaceV>, i: int, xdg: XdgSurfaceRole)
    requires
        surfaces_wf(s),
        0 <= i < s.len(),
        s[i].role matches SurfaceRoleV::Xdg(old_xdg) && same_window_links(old_xdg, xdg),
        xdg.wf(),
    ensures
        surfaces_wf(s.update(i, with_window(s[i], xdg))),
        same_links(s, s.update(i, with_window(s[i], xdg))),
{
    let t = s.update(i, with_window(s[i], xdg));
    assert(surface_wf(s, i));
    assert forall|j: int| 0 <= j < t.len() implies #[trigger] surface_wf(t, j) by {
        assert(surface_wf(s, j));
        assert forall|k: int, c: int| is_child(s, k, c) implies is_child(t, k, c) by {}
    }
    assert forall|j: int| 0 <= j < s.len() implies up(s, j) == #[trigger] up(t, j) by {}
}

/// A surface without a role can become a window.
proof fn lemma_becomes_window(s: Seq<SurfaceV>, i: int, wl: Handle)
    requires
        surfaces_wf(s),
        0 <= i < s.len(),
        s[i].role is NoRole,
    ensures
        surfaces_wf(s.update(i, with_window(s[i], XdgSurfaceRole::fresh(wl)))),
        same_links(s, s.update(i, with_window(s[i], XdgSurfaceRole::fresh(wl)))),
{
    let t = s.update(i, with_window(s[i], XdgSurfaceRole::fresh(wl)));
    assert(surface_wf(s, i));
    assert forall|j: int| 0 <= j < t.len() implies #[trigger] surface_wf(t, j) by {
        assert(surface_wf(s, j));
        assert forall|k: int, c: int| is_child(s, k, c) implies is_child(t, k, c) by {}
    }
    assert forall|j: int| 0 <= j < s.len() implies up(s, j) == #[trigger] up(t, j) by {}
}

/// A window that is nothing yet can become a toplevel or a popup, and stop being a window.
proof fn lemma_window_becomes(s: Seq<SurfaceV>, i: int, x: SurfaceV)
    requires
        surfaces_wf(s),
        0 <= i < s.len(),
        s[i].role matches SurfaceRoleV::Xdg(xdg) && xdg.specific is NoRole,
        x == (SurfaceV { role: x.role, ..s[i] }),
        match x.role {
            SurfaceRoleV::NoRole => true,
            SurfaceRoleV::Xdg(y) => {
                &&& y.wf()
                &&& y.wl == s[i].xdg()->0.wl
                &&& y.popup == s[i].xdg()->0.popup
                &&& (y.specific matches SpecificRole::Popup(p) ==> p.parent < s.len() && s[p.parent as int].wl.client
                    == s[i].wl.client)
            },
            _ => false,
        },
    ensures
        surfaces_wf(s.update(i, x)),
{
    let t = s.update(i, x);
    assert(surface_wf(s, i));
    assert forall|j: int| 0 <= j < t.len() implies #[trigger] surface_wf(t, j) by {
        assert(surface_wf(s, j));
        assert forall|k: int, c: int| is_child(s, k, c) implies is_child(t, k, c) by {}
    }
}

/// What comes of a request on the window that surface `i` is.
#[verifier::ext_equal]
pub struct WindowOutcome {
    pub surfaces: Seq<SurfaceV>,
    pub actions: Seq<Action>,
    pub result: Result<(), Error>,
}

/// What comes of a request on the window that surface `i` is.
pub open spec fn xdg_surface_after(c: CompositorV, i: int, request: XdgSurfaceRequest) -> WindowOutcome {
    let s = c.surfaces;
    let xdg = s[i].xdg()->0;
    match request {
        XdgSurfaceRequest::Destroy => if xdg.specific !is NoRole {
            WindowOutcome {
                surfaces: s,
                actions: Seq::empty(),
                result: Err(Error::XdgSurfaceDestroyedBeforeRole),
            }
        } else {
            WindowOutcome {
                surfaces: s.update(i, SurfaceV { role: SurfaceRoleV::NoRole, ..s[i] }),
                actions: Seq::empty(),
                result: Ok(()),
            }
        },
        XdgSurfaceRequest::GetToplevel(wl) => if xdg.specific !is NoRole {
            WindowOutcome { surfaces: s, actions: Seq::empty(), result: Err(Error::XdgSurfaceHasRole) }
        } else {
            WindowOutcome {
                surfaces: s.update(
                    i,
                    with_window(
                        s[i],
                        XdgSurfaceRole {
                            specific: SpecificRole::Toplevel(XdgToplevelRole::fresh(wl.handle)),
                            ..xdg
                        },
                    ),
                ),
                actions: if wl.version >= 5 {
                    seq![Action::ToplevelWmCapabilities { toplevel: wl.handle }]
                } else {
                    Seq::empty()
                },
                result: Ok(()),
            }
        },
        XdgSurfaceRequest::GetPopup { popup, parent, positioner } => if xdg.specific !is NoRole {
            WindowOutcome { surfaces: s, actions: Seq::empty(), result: Err(Error::XdgSurfaceHasRole) }
        } else {
            match Positioner::complete(c.xdg_positioners[positioner as int]->0) {
                Err(e) => WindowOutcome { surfaces: s, actions: Seq::empty(), result: Err(e) },
                Ok(pos) => WindowOutcome {
                    surfaces: s.update(
                        i,
                        with_window(
                            s[i],
                            XdgSurfaceRole {
                                specific: SpecificRole::Popup(
                                    XdgPopupRole::fresh(popup, parent, s[parent as int].xdg()->0.wl, pos),
                                ),
                                ..xdg
                            },
                        ),
                    ),
                    actions: Seq::empty(),
                    result: Ok(()),
                },
            }
        },
        XdgSurfaceRequest::SetWindowGeometry { x, y, width, height } => if width <= 0 || height <= 0 {
            WindowOutcome { surfaces: s, actions: Seq::empty(), result: Err(Error::WindowGeometryNotPositive) }
        } else {
            WindowOutcome {
                surfaces: s.update(
                    i,
                    with_window(
                        s[i],
                        XdgSurfaceRole {
                            pending: XdgSurfaceState {
                                window_geometry: Some(
                                    WindowGeometry { x, y, width: width as u32, height: height as u32 },
                                ),
                            },
                            ..xdg
                        },
                    ),
                ),
                actions: Seq::empty(),
                result: Ok(()),
            }
        },
        XdgSurfaceRequest::AckConfigure(serial) => WindowOutcome {
            surfaces: s.update(i, with_window(s[i], XdgSurfaceRole { last_acked_configure: Some(serial), ..xdg })),
            actions: Seq::empty(),
            result: Ok(()),
        },
    }
}

/// The toplevel after a request that describes it, or the reason for which it is refused.
pub open spec fn toplevel_after(t: XdgToplevelRole, request: ToplevelStateRequest) -> Result<XdgToplevelRole, Error> {
    match request {
        ToplevelStateRequest::SetTitle(title) => Ok(
            XdgToplevelRole {
                dirty_title: true,
                pending: XdgToplevelState { title: Some(title), ..t.pending },
                ..t
            },
        ),
        ToplevelStateRequest::SetAppId(app_id) => Ok(
            XdgToplevelRole {
                dirty_app_id: true,
                pending: XdgToplevelState { app_id: Some(app_id), ..t.pending },
                ..t
            },
        ),
        ToplevelStateRequest::SetMaxSize { width, height } => if width < 0 || height < 0 {
            Err(Error::MaxSizeNegative)
        } else {
            Ok(
                XdgToplevelRole {
                    dirty_max_size: true,
                    pending: XdgToplevelState { max_size: Some((width as u32, height as u32)), ..t.pending },
                    ..t
                },
            )
        },
        ToplevelStateRequest::SetMinSize { width, height } => if width < 0 || height < 0 {
            Err(Error::MinSizeNegative)
        } else {
            Ok(
                XdgToplevelRole {
                    dirty_min_size: true,
                    pending: XdgToplevelState { min_size: Some((width as u32, height as u32)), ..t.pending },
                    ..t
                },
            )
        },
        _ => Ok(t),
    }
}

impl XdgToplevelRole {
    /// Handles a request that describes the toplevel.
    pub fn set_state(&mut self, request: ToplevelStateRequest) -> (r: Result<(), Error>)
        ensures
            match toplevel_after(*old(self), request) {
                Ok(t) => r == Ok::<(), Error>(()) && *final(self) == t,
                Err(e) => r == Err::<(), Error>(e) && *final(self) == *old(self),
            },
    {
        match request {
            ToplevelStateRequest::SetTitle(title) => {
                self.dirty_title = true;
                self.pending.title = Some(title);
            },
            ToplevelStateRequest::SetAppId(app_id) => {
                self.dirty_app_id = true;
                self.pending.app_id = Some(app_id);
            },
            ToplevelStateRequest::SetMaxSize { width, height } => {
                if width < 0 || height < 0 {
                    return Err(Error::MaxSizeNegative);
                }
                self.dirty_max_size = true;
                self.pending.max_size = Some((width as u32, height as u32));
            },
            ToplevelStateRequest::SetMinSize { width, height } => {
                if width < 0 || height < 0 {
                    return Err(Error::MinSizeNegative);
                }
                self.dirty_min_size = true;
                self.pending.min_size = Some((width as u32, height as u32));
            },
            ToplevelStateRequest::SetParent => {},
            ToplevelStateRequest::ShowWindowMenu => {},
            ToplevelStateRequest::SetMaximized => {},
            ToplevelStateRequest::UnsetMaximized => {},
            ToplevelStateRequest::SetFullscreen => {},
            ToplevelStateRequest::UnsetFullscreen => {},
            ToplevelStateRequest::SetMinimized => {},
        }
        Ok(())
    }
}

/// Whether some surface of a client is a window.
pub open spec fn has_windows(s: Seq<SurfaceV>, client: ClientId) -> bool {
    exists|i: int| 0 <= i < s.len() && (#[trigger] s[i]).wl.client == client && s[i].role is Xdg
}

impl Compositor {
    /// Creates rules for placing popups that say nothing yet.
    pub fn create_positioner(&mut self) -> (r: usize)
        ensures
            r == old(self)@.xdg_positioners.len(),
            final(self)@.xdg_positioners.len() == r + 1,
            final(self)@ == (CompositorV { xdg_positioners: final(self)@.xdg_positioners, ..old(self)@ }),
            final(self)@.xdg_positioners.take(r as int) == old(self)@.xdg_positioners,
            final(self)@.xdg_positioners[r as int] matches Some(p) && p.size is None && p.anchor_rect is None && p.offset == (
            0i32, 0i32) && p.anchor is None && p.gravity is None && p.contraint_adjustment.0 == 0 && !p.reactive,
            compositor_wf(old(self)@) ==> compositor_wf(final(self)@),
    {
        let k: usize = self.xdg_positioners.len();
        self.xdg_positioners.push(Some(RawPositioner::new()));
        assert(self@.xdg_positioners.take(k as int) =~= old(self)@.xdg_positioners);
        k
    }

    /// Handles a request on rules for placing popups.
    pub fn xdg_positioner_request(&mut self, k: usize, request: PositionerRequest) -> (r: Result<(), Error>)
        requires
            compositor_wf(old(self)@),
            k < old(self)@.xdg_positioners.len(),
            old(self)@.xdg_positioners[k as int] is Some,
        ensures
            ({
                let p = old(self)@.xdg_positioners[k as int]->0;
                let slot = if request is Destroy {
                    None
                } else {
                    match positioner_after(p, request) {
                        Ok(q) => Some(q),
                        Err(_) => Some(p),
                    }
                };
                &&& final(self)@ == (CompositorV {
                    xdg_positioners: old(self)@.xdg_positioners.update(k as int, slot),
                    ..old(self)@
                })
                &&& r == match positioner_after(p, request) {
                    Ok(_) => Ok::<(), Error>(()),
                    Err(e) => Err(e),
                }
            }),
            compositor_wf(final(self)@),
    {
        let ghost before = self@.xdg_positioners;
        let r = xdg_positioner_cb(&mut self.xdg_positioners[k], request);
        proof {
            if let Ok(u) = r {
                assert(u == ());
            }
        }
        r
    }

    /// Whether a client may let go of the object that makes windows: not while it has windows.
    pub fn destroy_wm_base(&self, client: ClientId) -> (r: Result<(), Error>)
        ensures
            r == if has_windows(self@.surfaces, client) {
                Err::<(), Error>(Error::XdgSurfacesRemain)
            } else {
                Ok::<(), Error>(())
            },
    {
        let n: usize = self.surfaces.len();
        let mut i: usize = 0;
        while i < n
            invariant
                i <= n,
                n == self@.surfaces.len(),
                forall|j: int|
                    0 <= j < i ==> !((#[trigger] self@.surfaces[j]).wl.client == client && self@.surfaces[j].role is Xdg),
            decreases n - i,
        {
            let surface = self.surfaces.get(i);
            if surface.wl.client == client && surface.get_xdg_surface().is_some() {
                assert(self@.surfaces[i as int].role is Xdg);
                return Err(Error::XdgSurfacesRemain);
            }
            i = i + 1;
        }
        Ok(())
    }

    /// Makes a surface a window.
    pub fn get_xdg_surface(&mut self, i: usize, wl: Handle) -> (r: Result<(), Error>)
        requires
            compositor_wf(old(self)@),
            i < old(self)@.surfaces.len(),
        ensures
            if old(self)@.surfaces[i as int].has_role() {
                r == Err::<(), Error>(Error::SurfaceHasRole) && final(self)@ == old(self)@
            } else {
                r == Ok::<(), Error>(()) && final(self)@ == (CompositorV {
                    surfaces: old(self)@.surfaces.update(
                        i as int,
                        with_window(old(self)@.surfaces[i as int], XdgSurfaceRole::fresh(wl)),
                    ),
                    ..old(self)@
                })
            },
            compositor_wf(final(self)@),
            same_links(old(self)@.surfaces, final(self)@.surfaces),
    {
        let ghost s = self@.surfaces;
        if self.surfaces.get(i).has_role() {
            return Err(Error::SurfaceHasRole);
        }
        self.surfaces.list[i].role = SurfaceRole::Xdg(XdgSurfaceRole::new(wl));
        proof {
            lemma_becomes_window(s, i as int, wl);
            assert(self@.surfaces =~= s.update(i as int, with_window(s[i as int], XdgSurfaceRole::fresh(wl))));
        }
        Ok(())
    }

    /// Handles a request on a window.
    pub fn xdg_surface_cb(&mut self, i: usize, request: XdgSurfaceRequest, actions: &mut Vec<Action>) -> (r: Result<
        (),
        Error,
    >)
        requires
            compositor_wf(old(self)@),
            i < old(self)@.surfaces.len(),
            old(self)@.surfaces[i as int].role is Xdg,
            request matches XdgSurfaceRequest::GetPopup { parent, positioner, .. } ==> {
                &&& parent < old(self)@.surfaces.len()
                &&& old(self)@.surfaces[parent as int].role is Xdg
                &&& old(self)@.surfaces[parent as int].wl.client == old(self)@.surfaces[i as int].wl.client
                &&& positioner < old(self)@.xdg_positioners.len()
                &&& old(self)@.xdg_positioners[positioner as int] is Some
            },
        ensures
            ({
                let o = xdg_surface_after(old(self)@, i as int, request);
                &&& final(self)@ == (CompositorV { surfaces: o.surfaces, ..old(self)@ })
                &&& final(actions)@ == old(actions)@ + o.actions
                &&& r == o.result
            }),
            compositor_wf(final(self)@),
            same_windows(old(self)@.surfaces, final(self)@.surfaces),
            others_unchanged(old(self)@.surfaces, final(self)@.surfaces, old(self)@.surfaces[i as int].wl.client),
            acyclic(old(self)@.surfaces) && (request matches XdgSurfaceRequest::GetPopup { parent, .. } ==> !below(
                old(self)@.surfaces,
                parent as int,
                i as int,
            )) ==> acyclic(final(self)@.surfaces),
    {
        let ghost s = self@.surfaces;
        let ghost a0 = actions@;
        let ghost o = xdg_surface_after(self@, i as int, request);
        let ghost xdg = s[i as int].xdg()->0;
        proof {
            assert(surface_wf(s, i as int));
            assert(self.surfaces.list@[i as int]@ == s[i as int]);
            assert(a0 + Seq::<Action>::empty() =~= a0);
        }
        let free = match self.surfaces.get(i).get_xdg_surface() {
            Some(xdg) => matches!(&xdg.specific, SpecificRole::NoRole),
            None => false,
        };
        match request {
            XdgSurfaceRequest::Destroy => {
                if !free {
                    return Err(Error::XdgSurfaceDestroyedBeforeRole);
                }
                self.surfaces.list[i].role = SurfaceRole::NoRole;
                proof {
                    assert(self@.surfaces =~= o.surfaces);
                    lemma_window_becomes(s, i as int, o.surfaces[i as int]);
                    if acyclic(s) {
                        lemma_unlink_acyclic(s, o.surfaces);
                    }
                }
            },
            XdgSurfaceRequest::GetToplevel(wl) => {
                if !free {
                    return Err(Error::XdgSurfaceHasRole);
                }
                if wl.version >= 5 {
                    actions.push(Action::ToplevelWmCapabilities { toplevel: wl.handle });
                }
                if let SurfaceRole::Xdg(x) = &mut self.surfaces.list[i].role {
                    x.specific = SpecificRole::Toplevel(XdgToplevelRole::new(wl.handle));
                }
                proof {
                    assert(actions@ =~= a0 + o.actions);
                    assert(self@.surfaces =~= o.surfaces);
                    lemma_window_becomes(s, i as int, o.surfaces[i as int]);
                    if acyclic(s) {
                        lemma_unlink_acyclic(s, o.surfaces);
                    }
                }
            },
            XdgSurfaceRequest::GetPopup { popup, parent, positioner } => {
                if !free {
                    return Err(Error::XdgSurfaceHasRole);
                }
                let raw: RawPositioner = self.xdg_positioners[positioner].unwrap();
                let pos = match Positioner::from_raw(raw) {
                    Err(e) => return Err(e),
                    Ok(pos) => pos,
                };
                let parent_wl = match self.surfaces.get(parent).get_xdg_surface() {
                    Some(x) => x.wl,
                    None => {
                        assert(false);
                        return Ok(());
                    },
                };
                if let SurfaceRole::Xdg(x) = &mut self.surfaces.list[i].role {
                    x.specific = SpecificRole::Popup(XdgPopupRole::new(popup, parent, parent_wl, pos));
                }
                proof {
                    assert(self@.surfaces =~= o.surfaces);
                    lemma_window_becomes(s, i as int, o.surfaces[i as int]);
                    if acyclic(s) && !below(s, parent as int, i as int) {
                        lemma_link_acyclic(s, o.surfaces, i as int, parent as int);
                    }
                }
            },
            XdgSurfaceRequest::SetWindowGeometry { x, y, width, height } => {
                if width <= 0 || height <= 0 {
                    return Err(Error::WindowGeometryNotPositive);
                }
                if let SurfaceRole::Xdg(w) = &mut self.surfaces.list[i].role {
                    w.pending.window_geometry = Some(
                        WindowGeometry { x, y, width: width as u32, height: height as u32 },
                    );
                }
                proof {
                    assert(self@.surfaces =~= o.surfaces);
                    lemma_window_changes(s, i as int, o.surfaces[i as int].xdg()->0);
                    if acyclic(s) {
                        lemma_acyclic_kept(s, o.surfaces);
                    }
                }
            },
            XdgSurfaceRequest::AckConfigure(serial) => {
                if let SurfaceRole::Xdg(w) = &mut self.surfaces.list[i].role {
                    w.last_acked_configure = Some(serial);
                }
                proof {
                    assert(self@.surfaces =~= o.surfaces);
                    lemma_window_changes(s, i as int, o.surfaces[i as int].xdg()->0);
                    if acyclic(s) {
                        lemma_acyclic_kept(s, o.surfaces);
                    }
                }
            },
        }
        Ok(())
    }
}

} // verus!
