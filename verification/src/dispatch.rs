//! Requests of clients, and what each of them leads to.
use vstd::prelude::*;
use crate::client::ClientId;
use crate::cursor::Shape;
use crate::error::Error;
use crate::globals::compositor::{CommittedBuffer, SurfaceRole, SurfaceV};
use crate::globals::compositor_requests::{
    compositor_wf, lemma_acyclic_kept, viewport_after, CompositorV, RegionRequest, SubsurfaceRequest, SurfaceRequest,
    ViewportRequest,
};
use crate::globals::subsurfaces::{below, linked, others_unchanged, same_window, subsurface_after};
use crate::globals::surfaces::{acyclic, parent_alive, surface_wf};
use crate::globals::xdg_shell::positioner::{positioner_after, PositionerRequest};
use crate::globals::xdg_shell::requests::{has_windows, with_window, xdg_surface_after, XdgSurfaceRequest};
use crate::globals::xdg_shell::{SpecificRole, XdgSurfaceRole};
use crate::protocol::{Action, Handle};
use crate::seat::{
    offer_source, DataDeviceManagerRequest, DataDeviceRequest, DataOfferRequest, DataSourceRequest, SeatOutcome,
    SeatRequest, SeatV,
};
use crate::server::law_clients_are_apart;
use crate::state::{
    client_removable, lemma_focus_kept, lemma_removable, shown_toplevel, state_wf, State, StateOutcome, StateV,
};
use crate::windows::{PopupRequest, ToplevelRequest};

verus! {

/// A request of a client. Surfaces, regions, positioners and viewports are given by their places.
#[derive(Debug)]
pub enum Request {
    DestroySurface(usize),
    Surface(usize, SurfaceRequest),
    Commit(usize, Option<CommittedBuffer>),
    GetSubsurface { surface: usize, parent: usize },
    Subsurface(usize, SubsurfaceRequest),
    Region(usize, RegionRequest),
    GetViewport(usize),
    Viewport(usize, ViewportRequest),
    DestroyWmBase,
    GetXdgSurface { surface: usize, wl: Handle },
    XdgSurface(usize, XdgSurfaceRequest),
    Positioner(usize, PositionerRequest),
    Toplevel(usize, ToplevelRequest),
    Popup(usize, PopupRequest),
    SetCursor { surface: Option<usize>, hotspot_x: i32, hotspot_y: i32 },
    SetShape(Shape),
    Seat(SeatRequest),
    DataDeviceManager(DataDeviceManagerRequest),
    DataSource(Handle, DataSourceRequest),
    DataDevice(Handle, DataDeviceRequest),
    DataOffer(Handle, DataOfferRequest, bool),
    ReleaseKeyboard(Handle),
    ReleasePointer(Handle),
}

impl StateV {
    /// Whether surface `i` is there and belongs to a client.
    pub open spec fn owns(self, client: ClientId, i: int) -> bool {
        0 <= i < self.compositor.surfaces.len() && self.compositor.surfaces[i].wl.client == client
    }

    /// Whether a client can make a request: what it names is there, is what it is taken for and is its
    /// own, and the request is one that is supported.
    pub open spec fn can_handle(self, client: ClientId, request: Request) -> bool {
        let c = self.compositor;
        let s = c.surfaces;
        match request {
            Request::DestroySurface(i) => self.owns(client, i as int),
            Request::Surface(i, r) => self.owns(client, i as int) && r.supported(s[i as int].version, c.regions),
            Request::Commit(i, buffer) => self.owns(client, i as int) && self.commit_supported(i as int, buffer),
            Request::GetSubsurface { surface, parent } => {
                &&& self.owns(client, surface as int)
                &&& self.owns(client, parent as int)
                &&& !below(s, parent as int, surface as int)
            },
            Request::Subsurface(i, _) => self.owns(client, i as int) && s[i as int].role is Subsurface,
            Request::Region(k, _) => k < c.regions.len() && c.regions[k as int] is Some,
            Request::GetViewport(i) => self.owns(client, i as int),
            Request::Viewport(v, _) => v < c.viewporters.len() && (c.viewporters[v as int] matches Some(i)
                ==> self.owns(client, i as int)),
            Request::DestroyWmBase => true,
            Request::GetXdgSurface { surface, .. } => self.owns(client, surface as int),
            Request::XdgSurface(i, r) => {
                &&& self.owns(client, i as int)
                &&& s[i as int].role is Xdg
                &&& (r matches XdgSurfaceRequest::GetPopup { parent, positioner, .. } ==> {
                    &&& self.owns(client, parent as int)
                    &&& s[parent as int].role is Xdg
                    &&& !below(s, parent as int, i as int)
                    &&& positioner < c.xdg_positioners.len()
                    &&& c.xdg_positioners[positioner as int] is Some
                })
            },
            Request::Positioner(k, _) => k < c.xdg_positioners.len() && c.xdg_positioners[k as int] is Some,
            Request::Toplevel(i, r) => {
                &&& self.owns(client, i as int)
                &&& s[i as int].is_toplevel()
                &&& (r is Resize ==> s[i as int].xdg()->0.effective_window_geometry is Some)
            },
            Request::Popup(i, r) => {
                &&& self.owns(client, i as int)
                &&& s[i as int].is_popup()
                &&& (r is Destroy ==> ({
                    let p = s[i as int].xdg()->0.specific->Popup_0;
                    parent_alive(s, p.parent as int, p.parent_wl)
                }))
                &&& (r matches PopupRequest::Reposition { positioner, .. } ==> positioner < c.xdg_positioners.len()
                    && c.xdg_positioners[positioner as int] is Some)
            },
            Request::SetCursor { surface, .. } => surface matches Some(i) ==> self.owns(client, i as int),
            Request::DataOffer(wl, _, _) => offer_source(self.seat.clients.data_offers.list, wl) is Some,
            _ => true,
        }
    }

    /// The state with another compositor.
    pub open spec fn with_compositor(self, c: CompositorV) -> StateV {
        StateV { compositor: c, ..self }
    }

    /// The outcome of a request on the seat as an outcome for the state.
    pub open spec fn with_seat_outcome(self, o: SeatOutcome) -> StateOutcome {
        StateOutcome { state: StateV { seat: o.seat, ..self }, actions: o.actions, result: o.result }
    }

    /// What comes of a request.
    pub open spec fn handled(self, client: ClientId, request: Request) -> StateOutcome {
        let c = self.compositor;
        let s = c.surfaces;
        let nothing = Seq::<Action>::empty();
        match request {
            Request::DestroySurface(i) => StateOutcome {
                state: self,
                actions: nothing,
                result: if s[i as int].role is NoRole || s[i as int].role is Cursor {
                    Ok(())
                } else {
                    Err(Error::DestroyedBeforeRole)
                },
            },
            Request::Surface(i, r) => match s[i as int].after_request(r, c.regions) {
                Ok(x) => StateOutcome { state: self.with_surface(i as int, x), actions: nothing, result: Ok(()) },
                Err(e) => StateOutcome { state: self, actions: nothing, result: Err(e) },
            },
            Request::Commit(i, buffer) => self.committed(i as int, buffer),
            Request::GetSubsurface { surface, parent } => if s[surface as int].has_role() {
                StateOutcome { state: self, actions: nothing, result: Err(Error::SurfaceHasRole) }
            } else {
                StateOutcome {
                    state: self.with_surfaces(linked(s, surface as int, parent as int)),
                    actions: nothing,
                    result: Ok(()),
                }
            },
            Request::Subsurface(i, r) => {
                let o = subsurface_after(s, i as int, r);
                StateOutcome { state: self.with_surfaces(o.surfaces), actions: o.actions, result: o.result }
            },
            Request::Region(k, r) => StateOutcome {
                state: self.with_compositor(
                    CompositorV {
                        regions: c.regions.update(
                            k as int,
                            match r {
                                RegionRequest::Destroy => None,
                                RegionRequest::Add(rect) => Some(c.regions[k as int]->0.union(rect.points())),
                                RegionRequest::Subtract(rect) => Some(
                                    c.regions[k as int]->0.difference(rect.points()),
                                ),
                            },
                        ),
                        ..c
                    },
                ),
                actions: nothing,
                result: Ok(()),
            },
            Request::GetViewport(i) => if s[i as int].viewport is Some {
                StateOutcome {
                    state: self.with_surface(i as int, SurfaceV { viewport: None, ..s[i as int] }),
                    actions: nothing,
                    result: Err(Error::SurfaceHasViewport),
                }
            } else {
                StateOutcome {
                    state: self.with_compositor(
                        CompositorV {
                            surfaces: s.update(
                                i as int,
                                SurfaceV { viewport: Some(c.viewporters.len() as usize), ..s[i as int] },
                            ),
                            viewporters: c.viewporters.push(Some(i)),
                            ..c
                        },
                    ),
                    actions: nothing,
                    result: Ok(()),
                }
            },
            Request::Viewport(v, r) => match c.viewporters[v as int] {
                None => StateOutcome { state: self, actions: nothing, result: Err(Error::ViewportSurfaceDead) },
                Some(i) => {
                    let (x, result) = viewport_after(s[i as int], r);
                    StateOutcome {
                        state: self.with_compositor(
                            CompositorV {
                                surfaces: s.update(i as int, x),
                                viewporters: if r is Destroy {
                                    c.viewporters.update(v as int, None)
                                } else {
                                    c.viewporters
                                },
                                ..c
                            },
                        ),
                        actions: nothing,
                        result,
                    }
                },
            },
            Request::DestroyWmBase => StateOutcome {
                state: self,
                actions: nothing,
                result: if has_windows(s, client) {
                    Err(Error::XdgSurfacesRemain)
                } else {
                    Ok(())
                },
            },
            Request::GetXdgSurface { surface, wl } => if s[surface as int].has_role() {
                StateOutcome { state: self, actions: nothing, result: Err(Error::SurfaceHasRole) }
            } else {
                StateOutcome {
                    state: self.with_surface(
                        surface as int,
                        with_window(s[surface as int], XdgSurfaceRole::fresh(wl)),
                    ),
                    actions: nothing,
                    result: Ok(()),
                }
            },
            Request::XdgSurface(i, r) => {
                let o = xdg_surface_after(c, i as int, r);
                StateOutcome { state: self.with_surfaces(o.surfaces), actions: o.actions, result: o.result }
            },
            Request::Positioner(k, r) => {
                let p = c.xdg_positioners[k as int]->0;
                let slot = if r is Destroy {
                    None
                } else {
                    match positioner_after(p, r) {
                        Ok(q) => Some(q),
                        Err(_) => Some(p),
                    }
                };
                StateOutcome {
                    state: self.with_compositor(
                        CompositorV { xdg_positioners: c.xdg_positioners.update(k as int, slot), ..c },
                    ),
                    actions: nothing,
                    result: match positioner_after(p, r) {
                        Ok(_) => Ok(()),
                        Err(e) => Err(e),
                    },
                }
            },
            Request::Toplevel(i, r) => self.toplevel_request(i as int, r),
            Request::Popup(i, r) => self.popup_request(i as int, r),
            Request::SetCursor { surface, hotspot_x, hotspot_y } => self.cursor_set(surface, hotspot_x, hotspot_y),
            Request::SetShape(shape) => StateOutcome {
                state: StateV { cursor: self.cursor.shape_set(shape), ..self },
                actions: nothing,
                result: Ok(()),
            },
            Request::Seat(r) => self.with_seat_outcome(self.seat.after_seat_request(r)),
            Request::DataDeviceManager(r) => self.with_seat_outcome(self.seat.after_manager_request(r)),
            Request::DataSource(wl, r) => self.with_seat_outcome(self.seat.after_source_request(wl, r)),
            Request::DataDevice(wl, r) => self.with_seat_outcome(self.seat.after_device_request(wl, r)),
            Request::DataOffer(wl, r, alive) => self.with_seat_outcome(self.seat.after_offer_request(wl, r, alive)),
            Request::ReleaseKeyboard(wl) => StateOutcome {
                state: StateV {
                    seat: SeatV {
                        clients: crate::seat::ClientSeatV {
                            keyboards: crate::seat::events::without(self.seat.clients.keyboards, wl),
                            ..self.seat.clients
                        },
                        ..self.seat
                    },
                    ..self
                },
                actions: nothing,
                result: Ok(()),
            },
            Request::ReleasePointer(wl) => StateOutcome {
                state: StateV {
                    seat: SeatV {
                        clients: crate::seat::ClientSeatV {
                            pointers: crate::seat::events::without(self.seat.clients.pointers, wl),
                            ..self.seat.clients
                        },
                        ..self.seat
                    },
                    ..self
                },
                actions: nothing,
                result: Ok(()),
            },
        }
    }
}

/// A state whose surfaces are in order, and whose windows are the same, is in order.
proof fn lemma_state_kept(a: StateV, b: StateV)
    requires
        state_wf(a),
        compositor_wf(b.compositor),
        b.compositor.surfaces.len() == a.compositor.surfaces.len(),
        b.focus_stack == a.focus_stack,
        b.cursor.kind == a.cursor.kind,
        forall|j: int|
            0 <= j < a.compositor.surfaces.len() ==> same_window(
                a.compositor.surfaces[j],
                #[trigger] b.compositor.surfaces[j],
            ),
    ensures
        state_wf(b),
{
    let s = a.compositor.surfaces;
    let t = b.compositor.surfaces;
    assert forall|j: int| 0 <= j < s.len() implies #[trigger] shown_toplevel(t, j) == shown_toplevel(s, j) by {
        assert(same_window(s[j], t[j]));
    }
    lemma_focus_kept(a.focus_stack, s, t);
}

impl State {
    /// Handles a request of a client. A request that is refused costs the client its connection; the
    /// client can then be removed.
    pub fn handle(&mut self, client: ClientId, request: Request, actions: &mut Vec<Action>) -> (r: Result<(), Error>)
        requires
            state_wf(old(self)@),
            acyclic(old(self)@.compositor.surfaces),
            old(self)@.can_handle(client, request),
        ensures
            final(self)@ == old(self)@.handled(client, request).state,
            final(actions)@ == old(actions)@ + old(self)@.handled(client, request).actions,
            r == old(self)@.handled(client, request).result,
            r is Ok ==> state_wf(final(self)@),
            client_removable(final(self)@, client),
            acyclic(final(self)@.compositor.surfaces),
            others_unchanged(old(self)@.compositor.surfaces, final(self)@.compositor.surfaces, client),
    {
        let ghost st = self@;
        let ghost s = st.compositor.surfaces;
        let ghost a0 = actions@;
        proof {
            lemma_removable(st, client);
            assert(a0 + Seq::<Action>::empty() =~= a0);
        }
        let r = match request {
            Request::DestroySurface(i) => self.destroy_surface(i),
            Request::Surface(i, r) => {
                let res = self.compositor.set_surface_state(i, r);
                proof {
                    lemma_state_kept(st, self@);
                    lemma_acyclic_kept(s, self@.compositor.surfaces);
                    if let Ok(u) = res {
                        assert(u == ());
                    }
                }
                res
            },
            Request::Commit(i, buffer) => self.commit(i, buffer, actions),
            Request::GetSubsurface { surface, parent } => {
                let res = self.compositor.get_subsurface(surface, parent);
                proof {
                    lemma_state_kept(st, self@);
                    if let Ok(u) = res {
                        assert(u == ());
                    }
                }
                res
            },
            Request::Subsurface(i, r) => {
                let res = self.compositor.wl_subsurface_cb(i, r, actions);
                proof {
                    let t = self@.compositor.surfaces;
                    if res is Ok {
                        lemma_state_kept(st, self@);
                    } else {
                        assert forall|j: int| 0 <= j < s.len() implies (#[trigger] t[j]).wl == s[j].wl by {
                            assert(same_window(s[j], t[j]));
                        }
                        law_clients_are_apart(s, t, client);
                        assert forall|j: int| 0 <= j < s.len() implies #[trigger] shown_toplevel(t, j)
                            == shown_toplevel(s, j) by {
                            assert(same_window(s[j], t[j]));
                        }
                        lemma_focus_kept(st.focus_stack, s, t);
                    }
                }
                res
            },
            Request::Region(k, r) => {
                self.compositor.wl_region_cb(k, r);
                Ok(())
            },
            Request::GetViewport(i) => {
                let res = self.compositor.get_viewport(i);
                proof {
                    lemma_state_kept(st, self@);
                    lemma_acyclic_kept(s, self@.compositor.surfaces);
                }
                match res {
                    Ok(_) => Ok(()),
                    Err(e) => Err(e),
                }
            },
            Request::Viewport(v, r) => {
                let res = self.compositor.wp_viewport_cb(v, r);
                proof {
                    lemma_state_kept(st, self@);
                    lemma_acyclic_kept(s, self@.compositor.surfaces);
                }
                res
            },
            Request::DestroyWmBase => self.compositor.destroy_wm_base(client),
            Request::GetXdgSurface { surface, wl } => {
                let res = self.compositor.get_xdg_surface(surface, wl);
                proof {
                    assert(surface_wf(s, surface as int));
                    lemma_state_kept(st, self@);
                    lemma_acyclic_kept(s, self@.compositor.surfaces);
                }
                res
            },
            Request::XdgSurface(i, r) => {
                let res = self.compositor.xdg_surface_cb(i, r, actions);
                proof {
                    lemma_state_kept(st, self@);
                }
                res
            },
            Request::Positioner(k, r) => self.compositor.xdg_positioner_request(k, r),
            Request::Toplevel(i, r) => self.xdg_toplevel_cb(i, r, actions),
            Request::Popup(i, r) => self.xdg_popup_cb(i, r, actions),
            Request::SetCursor { surface, hotspot_x, hotspot_y } => {
                let res = self.set_cursor(surface, hotspot_x, hotspot_y);
                proof {
                    lemma_acyclic_kept(s, self@.compositor.surfaces);
                }
                res
            },
            Request::SetShape(shape) => {
                self.cursor.set_shape(shape);
                Ok(())
            },
            Request::Seat(r) => self.seat.wl_seat_cb(r, actions),
            Request::DataDeviceManager(r) => self.seat.wl_data_device_manager_cb(r, actions),
            Request::DataSource(wl, r) => self.seat.wl_data_source_cb(wl, r, actions),
            Request::DataDevice(wl, r) => self.seat.wl_data_device_cb(wl, r, actions),
            Request::DataOffer(wl, r, alive) => self.seat.wl_data_offer_cb(wl, r, alive, actions),
            Request::ReleaseKeyboard(wl) => {
                self.seat.wl_keyboard_cb(wl);
                Ok(())
            },
            Request::ReleasePointer(wl) => {
                self.seat.release_pointer(wl);
                Ok(())
            },
        };
        proof {
            if state_wf(self@) {
                lemma_removable(self@, client);
            }
        }
        r
    }

    fn owns_surface(&self, client: ClientId, i: usize) -> (r: bool)
        ensures
            r == self@.owns(client, i as int),
    {
        i < self.compositor.surfaces.len() && self.compositor.surfaces.get(i).wl.client == client
    }

    fn has_region(&self, k: usize) -> (r: bool)
        ensures
            r == (k < self@.compositor.regions.len() && self@.compositor.regions[k as int] is Some),
    {
        k < self.compositor.regions.len() && self.compositor.regions[k].is_some()
    }

    fn has_positioner(&self, k: usize) -> (r: bool)
        ensures
            r == (k < self@.compositor.xdg_positioners.len() && self@.compositor.xdg_positioners[k as int] is Some),
    {
        k < self.compositor.xdg_positioners.len() && self.compositor.xdg_positioners[k].is_some()
    }

    /// Whether a client can make a request other than a commit, and whether what a commit names is its
    /// own.
    fn allows(&self, client: ClientId, request: &Request) -> (r: bool)
        requires
            state_wf(self@),
            acyclic(self@.compositor.surfaces),
        ensures
            r == (match *request {
                Request::Commit(i, _) => self@.owns(client, i as int),
                _ => self@.can_handle(client, *request),
            }),
    {
        match request {
            Request::DestroySurface(i) => self.owns_surface(client, *i),
            Request::Surface(i, r) => {
                if !self.owns_surface(client, *i) {
                    return false;
                }
                match r {
                    SurfaceRequest::Attach { x, y, .. } => self.compositor.surfaces.get(*i).version >= 5 || (*x == 0
                        && *y == 0),
                    SurfaceRequest::Offset { x, y } => *x == 0 && *y == 0,
                    SurfaceRequest::SetOpaqueRegion(Some(k)) => self.has_region(*k),
                    SurfaceRequest::SetInputRegion(Some(k)) => self.has_region(*k),
                    _ => true,
                }
            },
            Request::Commit(i, _) => self.owns_surface(client, *i),
            Request::GetSubsurface { surface, parent } => {
                self.owns_surface(client, *surface) && self.owns_surface(client, *parent)
                    && !self.compositor.surfaces.is_below(*parent, *surface)
            },
            Request::Subsurface(i, _) => {
                self.owns_surface(client, *i) && self.compositor.surfaces.get(*i).get_subsurface().is_some()
            },
            Request::Region(k, _) => self.has_region(*k),
            Request::GetViewport(i) => self.owns_surface(client, *i),
            Request::Viewport(v, _) => {
                if *v >= self.compositor.viewporters.len() {
                    return false;
                }
                match self.compositor.viewporters[*v] {
                    Some(i) => self.owns_surface(client, i),
                    None => true,
                }
            },
            Request::GetXdgSurface { surface, .. } => self.owns_surface(client, *surface),
            Request::XdgSurface(i, r) => {
                if !self.owns_surface(client, *i) || self.compositor.surfaces.get(*i).get_xdg_surface().is_none() {
                    return false;
                }
                match r {
                    XdgSurfaceRequest::GetPopup { parent, positioner, .. } => {
                        self.owns_surface(client, *parent) && self.compositor.surfaces.get(
                            *parent,
                        ).get_xdg_surface().is_some() && !self.compositor.surfaces.is_below(*parent, *i)
                            && self.has_positioner(*positioner)
                    },
                    _ => true,
                }
            },
            Request::Positioner(k, _) => self.has_positioner(*k),
            Request::Toplevel(i, r) => {
                if !self.owns_surface(client, *i) {
                    return false;
                }
                match &self.compositor.surfaces.get(*i).role {
                    SurfaceRole::Xdg(xdg) => match &xdg.specific {
                        SpecificRole::Toplevel(_) => match r {
                            ToplevelRequest::Resize(_) => xdg.effective_window_geometry.is_some(),
                            _ => true,
                        },
                        _ => false,
                    },
                    _ => false,
                }
            },
            Request::Popup(i, r) => {
                if !self.owns_surface(client, *i) {
                    return false;
                }
                assert(surface_wf(self@.compositor.surfaces, *i as int));
                match &self.compositor.surfaces.get(*i).role {
                    SurfaceRole::Xdg(xdg) => match &xdg.specific {
                        SpecificRole::Popup(p) => match r {
                            PopupRequest::Destroy => match self.compositor.surfaces.get(p.parent).get_xdg_surface() {
                                Some(parent) => parent.wl == p.parent_wl,
                                None => false,
                            },
                            PopupRequest::Reposition { positioner, .. } => self.has_positioner(*positioner),
                            _ => true,
                        },
                        _ => false,
                    },
                    _ => false,
                }
            },
            Request::SetCursor { surface, .. } => match surface {
                Some(i) => self.owns_surface(client, *i),
                None => true,
            },
            Request::DataOffer(wl, _, _) => self.seat.data_offer_source(*wl).is_some(),
            _ => true,
        }
    }

    /// Handles a request, unless the client cannot make it. A commit that cannot be handled may leave
    /// surfaces that are not in order.
    pub fn try_handle(&mut self, client: ClientId, request: Request, actions: &mut Vec<Action>) -> (r: Option<
        Result<(), Error>,
    >)
        requires
            state_wf(old(self)@),
            acyclic(old(self)@.compositor.surfaces),
        ensures
            r is Some == old(self)@.can_handle(client, request),
            r matches Some(result) ==> {
                &&& final(self)@ == old(self)@.handled(client, request).state
                &&& final(actions)@ == old(actions)@ + old(self)@.handled(client, request).actions
                &&& result == old(self)@.handled(client, request).result
                &&& (result is Ok ==> state_wf(final(self)@))
                &&& client_removable(final(self)@, client)
                &&& acyclic(final(self)@.compositor.surfaces)
                &&& others_unchanged(old(self)@.compositor.surfaces, final(self)@.compositor.surfaces, client)
            },
            r is None && !(request is Commit) ==> final(self)@ == old(self)@ && final(actions)@ == old(actions)@,
    {
        if !self.allows(client, &request) {
            return None;
        }
        match request {
            Request::Commit(i, buffer) => self.try_commit(i, buffer, actions),
            request => Some(self.handle(client, request, actions)),
        }
    }
}

} // verus!
