//! Requests on windows and on the image at the pointer.
use vstd::prelude::*;
use crate::cursor::{CursorV, Kind};
use crate::error::Error;
use crate::globals::compositor::{SurfaceRole, SurfaceRoleV, SurfaceV};
use crate::globals::compositor_requests::lemma_acyclic_kept;
use crate::globals::subsurfaces::{lemma_unlink_acyclic, others_unchanged};
use crate::globals::surfaces::{acyclic, is_child, parent_alive, same_links, surface_wf, surfaces_wf, up};
use crate::globals::xdg_shell::popup::XdgPopupRole;
use crate::globals::xdg_shell::positioner::{Positioner, RawPositioner};
use crate::globals::xdg_shell::requests::{lemma_window_changes, toplevel_after, with_window, ToplevelStateRequest};
use crate::globals::xdg_shell::{SpecificRole, XdgSurfaceRole};
use crate::protocol::{Action, ResizeEdge};
use crate::seat::pointer::{PointerV, PtrStateV};
use crate::seat::SeatV;
use crate::state::{
    has_popup, lemma_focus_kept, lemma_specific_gone, state_wf, with_no_role, with_popup, with_toplevel,
    State, StateOutcome, StateV,
};

verus! {

/// Requests on a toplevel.
#[derive(Debug)]
pub enum ToplevelRequest {
    Destroy,
    Move,
    Resize(ResizeEdge),
    Describe(ToplevelStateRequest),
}

/// Requests on a popup.
#[derive(Debug, Clone, Copy, PartialEq, Eq, Structural)]
pub enum PopupRequest {
    Destroy,
    Grab,
    Reposition { positioner: usize, token: u32 },
}

impl StateV {
    /// What comes of a request on the toplevel that surface `i` is.
    pub open spec fn toplevel_request(self, i: int, request: ToplevelRequest) -> StateOutcome {
        let x = self.compositor.surfaces[i];
        let xdg = x.xdg()->0;
        let t = xdg.specific->Toplevel_0;
        match request {
            ToplevelRequest::Destroy => {
                let st = self.unmapped(i);
                StateOutcome {
                    state: st.with_surface(i, with_no_role(st.compositor.surfaces[i])),
                    actions: self.unmap_events(i),
                    result: Ok(()),
                }
            },
            ToplevelRequest::Move => StateOutcome {
                state: StateV {
                    seat: SeatV {
                        pointer: PointerV {
                            state: PtrStateV::Moving {
                                surface: x.wl,
                                toplevel: t.wl,
                                ptr_start_x: self.seat.pointer.x,
                                ptr_start_y: self.seat.pointer.y,
                                toplevel_start_x: t.x,
                                toplevel_start_y: t.y,
                            },
                            ..self.seat.pointer
                        },
                        ..self.seat
                    },
                    ..self
                },
                actions: self.seat.pointer.state.leave_events(self.seat.clients.pointers),
                result: Ok(()),
            },
            ToplevelRequest::Resize(edge) => {
                let g = xdg.effective_window_geometry->0;
                StateOutcome {
                    state: StateV {
                        seat: SeatV {
                            pointer: PointerV {
                                state: PtrStateV::Resizing {
                                    surface: x.wl,
                                    toplevel: t.wl,
                                    edge,
                                    ptr_start_x: self.seat.pointer.x,
                                    ptr_start_y: self.seat.pointer.y,
                                    toplevel_start_width: g.width,
                                    toplevel_start_height: g.height,
                                },
                                ..self.seat.pointer
                            },
                            ..self.seat
                        },
                        ..self
                    },
                    actions: self.seat.pointer.state.leave_events(self.seat.clients.pointers),
                    result: Ok(()),
                }
            },
            ToplevelRequest::Describe(request) => match toplevel_after(t, request) {
                Ok(u) => StateOutcome {
                    state: self.with_surface(i, with_toplevel(x, u)),
                    actions: Seq::empty(),
                    result: Ok(()),
                },
                Err(e) => StateOutcome { state: self, actions: Seq::empty(), result: Err(e) },
            },
        }
    }

    /// The state after the popup that surface `i` is was taken down, but for the order of popups.
    pub open spec fn popup_down(self, i: int) -> StateV {
        let s = self.compositor.surfaces;
        let parent = s[i].xdg()->0.specific->Popup_0.parent as int;
        let st = self.with_surface(
            parent,
            with_window(s[parent], XdgSurfaceRole { popup: None, ..s[parent].xdg()->0 }),
        ).unmapped(i);
        st.with_surface(i, with_no_role(st.compositor.surfaces[i]))
    }

    /// What comes of a request on the popup that surface `i` is. Only the popup on top may be
    /// destroyed.
    pub open spec fn popup_request(self, i: int, request: PopupRequest) -> StateOutcome {
        let x = self.compositor.surfaces[i];
        let xdg = x.xdg()->0;
        let p = xdg.specific->Popup_0;
        match request {
            PopupRequest::Destroy => {
                let st = self.popup_down(i);
                if self.popup_stack.len() > 0 && self.popup_stack.last() == p.wl {
                    StateOutcome {
                        state: StateV { popup_stack: self.popup_stack.drop_last(), ..st },
                        actions: self.unmap_events(i),
                        result: Ok(()),
                    }
                } else {
                    StateOutcome { state: st, actions: self.unmap_events(i), result: Err(Error::PopupNotTop) }
                }
            },
            PopupRequest::Grab => StateOutcome {
                state: StateV {
                    seat: self.seat.focused(Some(x.wl)),
                    ..self.with_surface(i, with_popup(x, XdgPopupRole { grab: true, ..p }))
                },
                actions: self.seat.focus_events(Some(x.wl)),
                result: Ok(()),
            },
            PopupRequest::Reposition { positioner, token } => {
                let told = seq![Action::PopupRepositioned { popup: p.wl, token }];
                match Positioner::complete(self.compositor.xdg_positioners[positioner as int]->0) {
                    Err(e) => StateOutcome { state: self, actions: told, result: Err(e) },
                    Ok(pos) => {
                        let q = XdgPopupRole { positioner: pos, ..p };
                        StateOutcome {
                            state: self.with_surface(i, with_popup(x, q.configured())),
                            actions: told + q.configure_events(xdg.wl),
                            result: Ok(()),
                        }
                    },
                }
            },
        }
    }

    /// What comes of a request to show a surface, or nothing, at the pointer.
    pub open spec fn cursor_set(self, surface: Option<usize>, hx: i32, hy: i32) -> StateOutcome {
        match surface {
            None => StateOutcome {
                state: StateV { cursor: CursorV { kind: Kind::Hidden, ..self.cursor }, ..self },
                actions: Seq::empty(),
                result: Ok(()),
            },
            Some(i) => {
                let x = self.compositor.surfaces[i as int];
                if x.role is NoRole || x.role is Cursor {
                    StateOutcome {
                        state: StateV {
                            cursor: CursorV { kind: Kind::Surface { surface: i, hx, hy }, ..self.cursor },
                            ..self.with_surface(i as int, SurfaceV { role: SurfaceRoleV::Cursor, ..x })
                        },
                        actions: Seq::empty(),
                        result: Ok(()),
                    }
                } else {
                    StateOutcome { state: self, actions: Seq::empty(), result: Err(Error::SurfaceHasRole) }
                }
            },
        }
    }
}

/// A window can lose its popup.
proof fn lemma_popup_cleared(s: Seq<SurfaceV>, parent: int)
    requires
        surfaces_wf(s),
        0 <= parent < s.len(),
        s[parent].role is Xdg,
    ensures
        ({
            let t = s.update(parent, with_window(s[parent], XdgSurfaceRole { popup: None, ..s[parent].xdg()->0 }));
            surfaces_wf(t) && same_links(s, t)
        }),
{
    let t = s.update(parent, with_window(s[parent], XdgSurfaceRole { popup: None, ..s[parent].xdg()->0 }));
    assert(surface_wf(s, parent));
    assert forall|j: int| 0 <= j < t.len() implies #[trigger] surface_wf(t, j) by {
        assert(surface_wf(s, j));
        assert forall|k: int, c: int| is_child(s, k, c) implies is_child(t, k, c) by {}
    }
    assert forall|j: int| 0 <= j < s.len() implies up(s, j) == #[trigger] up(t, j) by {}
}

impl State {
    /// Whether a surface may be destroyed: only once it is no longer a subsurface or a window. Its
    /// subsurfaces are then no longer shown, which they never are by themselves: see
    /// [`law_subsurface_is_not_shown_by_itself`](crate::state::law_subsurface_is_not_shown_by_itself).
    pub fn destroy_surface(&self, i: usize) -> (r: Result<(), Error>)
        requires
            i < self@.compositor.surfaces.len(),
        ensures
            r == if self@.compositor.surfaces[i as int].role is NoRole || self@.compositor.surfaces[i as int].role is Cursor {
                Ok::<(), Error>(())
            } else {
                Err::<(), Error>(Error::DestroyedBeforeRole)
            },
    {
        match &self.compositor.surfaces.get(i).role {
            SurfaceRole::NoRole => Ok(()),
            SurfaceRole::Cursor => Ok(()),
            _ => Err(Error::DestroyedBeforeRole),
        }
    }

    /// Handles a request on a toplevel.
    pub fn xdg_toplevel_cb(&mut self, i: usize, request: ToplevelRequest, actions: &mut Vec<Action>) -> (r: Result<
        (),
        Error,
    >)
        requires
            state_wf(old(self)@),
            i < old(self)@.compositor.surfaces.len(),
            old(self)@.compositor.surfaces[i as int].is_toplevel(),
            request is Resize ==> old(self)@.compositor.surfaces[i as int].xdg()->0.effective_window_geometry is Some,
        ensures
            final(self)@ == old(self)@.toplevel_request(i as int, request).state,
            final(actions)@ == old(actions)@ + old(self)@.toplevel_request(i as int, request).actions,
            r == old(self)@.toplevel_request(i as int, request).result,
            state_wf(final(self)@),
            acyclic(old(self)@.compositor.surfaces) ==> acyclic(final(self)@.compositor.surfaces),
            others_unchanged(
                old(self)@.compositor.surfaces,
                final(self)@.compositor.surfaces,
                old(self)@.compositor.surfaces[i as int].wl.client,
            ),
    {
        let ghost st0 = self@;
        let ghost s0 = st0.compositor.surfaces;
        let ghost x = s0[i as int];
        let ghost a0 = actions@;
        let ghost o = st0.toplevel_request(i as int, request);
        proof {
            assert(self.compositor.surfaces.list@[i as int]@ == x);
            assert(surface_wf(s0, i as int));
            assert(a0 + Seq::<Action>::empty() =~= a0);
        }
        match request {
            ToplevelRequest::Destroy => {
                self.unmap(i, actions);
                let ghost st1 = self@;
                let ghost s1 = st1.compositor.surfaces;
                if let SurfaceRole::Xdg(xdg) = &mut self.compositor.surfaces.list[i].role {
                    xdg.specific = SpecificRole::NoRole;
                }
                proof {
                    let s2 = s1.update(i as int, with_no_role(s1[i as int]));
                    assert(self@.compositor.surfaces =~= s2);
                    assert forall|j: int| 0 <= j < s1.len() implies !(#[trigger] has_popup(s1, j, i as int)) by {
                        assert(surface_wf(s1, j));
                    }
                    lemma_specific_gone(s1, i as int);
                    lemma_focus_kept(st1.focus_stack, s1, s2);
                    if acyclic(s0) {
                        lemma_acyclic_kept(s0, s1);
                        lemma_unlink_acyclic(s1, s2);
                    }
                }
            },
            ToplevelRequest::Move => {
                let surface = self.compositor.surfaces.get(i);
                let wl = surface.wl;
                match &surface.role {
                    SurfaceRole::Xdg(xdg) => match &xdg.specific {
                        SpecificRole::Toplevel(t) => {
                            self.seat.pointer.start_move(wl, t.wl, t.x, t.y, &self.seat.clients.pointers, actions);
                        },
                        _ => {
                            assert(false);
                        },
                    },
                    _ => {
                        assert(false);
                    },
                }
            },
            ToplevelRequest::Resize(edge) => {
                let surface = self.compositor.surfaces.get(i);
                let wl = surface.wl;
                match &surface.role {
                    SurfaceRole::Xdg(xdg) => match (&xdg.specific, xdg.effective_window_geometry) {
                        (SpecificRole::Toplevel(t), Some(g)) => {
                            self.seat.pointer.start_resize(
                                edge,
                                wl,
                                t.wl,
                                g.width,
                                g.height,
                                &self.seat.clients.pointers,
                                actions,
                            );
                        },
                        _ => {
                            assert(false);
                        },
                    },
                    _ => {
                        assert(false);
                    },
                }
            },
            ToplevelRequest::Describe(request) => {
                let r = match &mut self.compositor.surfaces.list[i].role {
                    SurfaceRole::Xdg(xdg) => match &mut xdg.specific {
                        SpecificRole::Toplevel(t) => t.set_state(request),
                        _ => {
                            assert(false);
                            Ok(())
                        },
                    },
                    _ => {
                        assert(false);
                        Ok(())
                    },
                };
                proof {
                    let s1 = self@.compositor.surfaces;
                    assert(s1 =~= o.state.compositor.surfaces);
                    if r is Ok {
                        lemma_window_changes(s0, i as int, s1[i as int].xdg()->0);
                        lemma_focus_kept(st0.focus_stack, s0, s1);
                        if acyclic(s0) {
                            lemma_acyclic_kept(s0, s1);
                        }
                    }
                    assert(self@ =~= o.state);
                }
                return r;
            },
        }
        Ok(())
    }

    /// Handles a request on a popup.
    pub fn xdg_popup_cb(&mut self, i: usize, request: PopupRequest, actions: &mut Vec<Action>) -> (r: Result<(), Error>)
        requires
            state_wf(old(self)@),
            i < old(self)@.compositor.surfaces.len(),
            old(self)@.compositor.surfaces[i as int].is_popup(),
            request is Destroy ==> ({
                let p = old(self)@.compositor.surfaces[i as int].xdg()->0.specific->Popup_0;
                parent_alive(old(self)@.compositor.surfaces, p.parent as int, p.parent_wl)
            }),
            request matches PopupRequest::Reposition { positioner, .. } ==> positioner < old(
                self,
            )@.compositor.xdg_positioners.len() && old(self)@.compositor.xdg_positioners[positioner as int] is Some,
        ensures
            final(self)@ == old(self)@.popup_request(i as int, request).state,
            final(actions)@ == old(actions)@ + old(self)@.popup_request(i as int, request).actions,
            r == old(self)@.popup_request(i as int, request).result,
            state_wf(final(self)@),
            acyclic(old(self)@.compositor.surfaces) ==> acyclic(final(self)@.compositor.surfaces),
            others_unchanged(
                old(self)@.compositor.surfaces,
                final(self)@.compositor.surfaces,
                old(self)@.compositor.surfaces[i as int].wl.client,
            ),
    {
        let ghost st0 = self@;
        let ghost s0 = st0.compositor.surfaces;
        let ghost x = s0[i as int];
        let ghost xdg = x.xdg()->0;
        let ghost p = xdg.specific->Popup_0;
        let ghost a0 = actions@;
        let ghost o = st0.popup_request(i as int, request);
        proof {
            assert(self.compositor.surfaces.list@[i as int]@ == x);
            assert(surface_wf(s0, i as int));
        }
        let (xdg_wl, popup_wl, parent) = match &self.compositor.surfaces.get(i).role {
            SurfaceRole::Xdg(xdg) => match &xdg.specific {
                SpecificRole::Popup(p) => (xdg.wl, p.wl, p.parent),
                _ => {
                    assert(false);
                    return Ok(());
                },
            },
            _ => {
                assert(false);
                return Ok(());
            },
        };
        match request {
            PopupRequest::Destroy => {
                assert(self.compositor.surfaces.list@[parent as int]@ == s0[parent as int]);
                assert(surface_wf(s0, parent as int));
                if let SurfaceRole::Xdg(parent_xdg) = &mut self.compositor.surfaces.list[parent].role {
                    parent_xdg.popup = None;
                }
                let ghost s1 = s0.update(
                    parent as int,
                    with_window(s0[parent as int], XdgSurfaceRole { popup: None, ..s0[parent as int].xdg()->0 }),
                );
                proof {
                    assert(self@.compositor.surfaces =~= s1);
                    lemma_popup_cleared(s0, parent as int);
                    lemma_focus_kept(st0.focus_stack, s0, s1);
                }
                self.unmap(i, actions);
                let ghost st2 = self@;
                let ghost s2 = st2.compositor.surfaces;
                if let SurfaceRole::Xdg(xdg) = &mut self.compositor.surfaces.list[i].role {
                    xdg.specific = SpecificRole::NoRole;
                }
                proof {
                    let s3 = s2.update(i as int, with_no_role(s2[i as int]));
                    assert(self@.compositor.surfaces =~= s3);
                    assert forall|j: int| 0 <= j < s2.len() implies !(#[trigger] has_popup(s2, j, i as int)) by {
                        assert(surface_wf(s0, j));
                        assert(surface_wf(s2, j));
                    }
                    lemma_specific_gone(s2, i as int);
                    lemma_focus_kept(st2.focus_stack, s2, s3);
                    if acyclic(s0) {
                        lemma_acyclic_kept(s0, s1);
                        lemma_acyclic_kept(s1, s2);
                        lemma_unlink_acyclic(s2, s3);
                    }
                }
                let n: usize = self.popup_stack.len();
                if n == 0 || self.popup_stack[n - 1] != popup_wl {
                    return Err(Error::PopupNotTop);
                }
                let _ = self.popup_stack.pop();
                assert(self@.popup_stack =~= st0.popup_stack.drop_last());
            },
            PopupRequest::Grab => {
                if let SurfaceRole::Xdg(xdg) = &mut self.compositor.surfaces.list[i].role {
                    if let SpecificRole::Popup(p) = &mut xdg.specific {
                        p.grab = true;
                    }
                }
                proof {
                    let s1 = o.state.compositor.surfaces;
                    assert(self@.compositor.surfaces =~= s1);
                    lemma_window_changes(s0, i as int, s1[i as int].xdg()->0);
                    lemma_focus_kept(st0.focus_stack, s0, s1);
                    if acyclic(s0) {
                        lemma_acyclic_kept(s0, s1);
                    }
                }
                let wl = self.compositor.surfaces.list[i].wl;
                self.seat.kbd_focus_surface(Some(wl), actions);
            },
            PopupRequest::Reposition { positioner, token } => {
                actions.push(Action::PopupRepositioned { popup: popup_wl, token });
                let ghost told = seq![Action::PopupRepositioned { popup: p.wl, token }];
                assert(actions@ =~= a0 + told);
                let raw: RawPositioner = self.compositor.xdg_positioners[positioner].unwrap();
                let pos = match Positioner::from_raw(raw) {
                    Err(e) => return Err(e),
                    Ok(pos) => pos,
                };
                if let SurfaceRole::Xdg(xdg) = &mut self.compositor.surfaces.list[i].role {
                    if let SpecificRole::Popup(p) = &mut xdg.specific {
                        p.positioner = pos;
                        p.configure(xdg_wl, actions);
                    }
                }
                proof {
                    let s1 = o.state.compositor.surfaces;
                    assert(self@.compositor.surfaces =~= s1);
                    lemma_window_changes(s0, i as int, s1[i as int].xdg()->0);
                    lemma_focus_kept(st0.focus_stack, s0, s1);
                    if acyclic(s0) {
                        lemma_acyclic_kept(s0, s1);
                    }
                    assert(actions@ =~= a0 + o.actions);
                }
            },
        }
        Ok(())
    }

    /// Shows a surface, or nothing, at the pointer.
    pub fn set_cursor(&mut self, surface: Option<usize>, hotspot_x: i32, hotspot_y: i32) -> (r: Result<(), Error>)
        requires
            state_wf(old(self)@),
            surface matches Some(i) ==> i < old(self)@.compositor.surfaces.len(),
        ensures
            final(self)@ == old(self)@.cursor_set(surface, hotspot_x, hotspot_y).state,
            r == old(self)@.cursor_set(surface, hotspot_x, hotspot_y).result,
            state_wf(final(self)@),
            same_links(old(self)@.compositor.surfaces, final(self)@.compositor.surfaces),
    {
        let ghost st0 = self@;
        let ghost s0 = st0.compositor.surfaces;
        match surface {
            None => {
                self.cursor.set_hidden();
            },
            Some(i) => {
                assert(self.compositor.surfaces.list@[i as int]@ == s0[i as int]);
                match &self.compositor.surfaces.get(i).role {
                    SurfaceRole::NoRole => {},
                    SurfaceRole::Cursor => {},
                    _ => return Err(Error::SurfaceHasRole),
                }
                self.compositor.surfaces.list[i].role = SurfaceRole::Cursor;
                self.cursor.set_surface(i, hotspot_x, hotspot_y);
                proof {
                    let s1 = s0.update(i as int, SurfaceV { role: SurfaceRoleV::Cursor, ..s0[i as int] });
                    assert(self@.compositor.surfaces =~= s1);
                    assert(surface_wf(s0, i as int));
                    assert forall|j: int| 0 <= j < s1.len() implies #[trigger] surface_wf(s1, j) by {
                        assert(surface_wf(s0, j));
                        assert forall|k: int, c: int| is_child(s0, k, c) implies is_child(s1, k, c) by {}
                    }
                    assert forall|j: int| 0 <= j < s0.len() implies up(s0, j) == #[trigger] up(s1, j) by {}
                    lemma_focus_kept(st0.focus_stack, s0, s1);
                }
            },
        }
        Ok(())
    }
}

} // verus!
