//! What all clients share, and the requests that change it.
use vstd::prelude::*;
use crate::client::ClientId;
use crate::cursor::{Cursor, CursorV, Kind};
use crate::error::Error;
use crate::focus_stack::{lemma_removed, removed, FocusStack};
use crate::globals::compositor::{CommittedBuffer, SurfaceRole, SurfaceRoleV, SurfaceV};
use crate::globals::compositor_requests::{
    compositor_wf, lemma_acyclic_kept, state_changed, state_committed, Compositor, CompositorV,
};
use crate::globals::subsurfaces::others_unchanged;
use crate::globals::surfaces::{
    acyclic, bounding_box, effective_is_sync, is_child, parent_alive, same_links, surface_wf, surfaces_wf, up,
};
use crate::globals::xdg_shell::popup::XdgPopupRole;
use crate::globals::xdg_shell::requests::{lemma_window_changes, with_window};
use crate::globals::xdg_shell::toplevel::XdgToplevelRole;
use crate::globals::xdg_shell::{SpecificRole, XdgSurfaceRole};
use crate::protocol::{Action, Handle, ResizeEdge};
use crate::seat::{Seat, SeatV};
use crate::server::{law_clients_are_apart, others_wf};

verus! {

/// What all clients share.
#[derive(Debug)]
pub struct State {
    pub compositor: Compositor,
    pub focus_stack: FocusStack,
    pub popup_stack: Vec<Handle>,
    pub seat: Seat,
    pub cursor: Cursor,
}

/// What a [`State`] says.
#[verifier::ext_equal]
pub struct StateV {
    pub compositor: CompositorV,
    pub focus_stack: Seq<usize>,
    pub popup_stack: Seq<Handle>,
    pub seat: SeatV,
    pub cursor: CursorV,
}

impl View for State {
    type V = StateV;

    open spec fn view(&self) -> StateV {
        StateV {
            compositor: self.compositor@,
            focus_stack: self.focus_stack@,
            popup_stack: self.popup_stack@,
            seat: self.seat@,
            cursor: self.cursor@,
        }
    }
}

/// What comes of a request.
#[verifier::ext_equal]
pub struct StateOutcome {
    pub state: StateV,
    pub actions: Seq<Action>,
    pub result: Result<(), Error>,
}

/// Whether the focus stack holds the toplevels that are shown, each once.
pub open spec fn focus_wf(stack: Seq<usize>, s: Seq<SurfaceV>) -> bool {
    &&& forall|k: int| 0 <= k < stack.len() ==> shown_toplevel(s, #[trigger] stack[k] as int)
    &&& stack.no_duplicates()
    &&& forall|i: int| 0 <= i < s.len() && #[trigger] shown_toplevel(s, i) ==> stack.contains(i as usize)
}

/// Whether surface `i` is a toplevel that is shown.
pub open spec fn shown_toplevel(s: Seq<SurfaceV>, i: int) -> bool {
    0 <= i < s.len() && s[i].is_toplevel() && s[i].mapped
}

/// What holds of the state between requests.
pub open spec fn state_wf(st: StateV) -> bool {
    &&& compositor_wf(st.compositor)
    &&& st.compositor.surfaces.len() <= usize::MAX
    &&& focus_wf(st.focus_stack, st.compositor.surfaces)
    &&& st.cursor.wf(st.compositor.surfaces)
}

impl StateV {
    /// The state with other surfaces.
    pub open spec fn with_surfaces(self, s: Seq<SurfaceV>) -> StateV {
        StateV { compositor: CompositorV { surfaces: s, ..self.compositor }, ..self }
    }

    /// The state with one surface changed.
    pub open spec fn with_surface(self, i: int, x: SurfaceV) -> StateV {
        self.with_surfaces(self.compositor.surfaces.update(i, x))
    }

    /// The state after a surface is no longer shown. Subsurfaces are never shown by themselves, so
    /// nothing is left to be done for them.
    pub open spec fn unmapped(self, i: int) -> StateV {
        let x = self.compositor.surfaces[i];
        let gone = SurfaceV { mapped: false, configured: false, ..x };
        if x.mapped {
            StateV {
                focus_stack: if x.is_toplevel() {
                    removed(self.focus_stack, i as usize)
                } else {
                    self.focus_stack
                },
                seat: self.seat.surface_gone(x.wl),
                ..self.with_surface(i, gone)
            }
        } else {
            self.with_surface(i, gone)
        }
    }

    /// What is sent when a surface is no longer shown.
    pub open spec fn unmap_events(self, i: int) -> Seq<Action> {
        let x = self.compositor.surfaces[i];
        if x.mapped {
            self.seat.surface_gone_events(x.wl)
        } else {
            Seq::empty()
        }
    }

    /// Where a new window is put: a bit below and to the right of the one on top.
    pub open spec fn new_window_position(self) -> (i32, i32) {
        if self.focus_stack.len() == 0 {
            (20, 20)
        } else {
            let t = self.compositor.surfaces[self.focus_stack.last() as int].xdg()->0.specific->Toplevel_0;
            (t.x.wrapping_add(50), t.y.wrapping_add(50))
        }
    }

    /// What comes of a commit on the toplevel that surface `i` is, after its geometry was brought up
    /// to date.
    pub open spec fn toplevel_committed(self, i: int) -> StateOutcome {
        let x = self.compositor.surfaces[i];
        let xdg = x.xdg()->0;
        let t = xdg.specific->Toplevel_0.state_committed();
        let st = self.with_surface(i, with_toplevel(x, t));
        if !x.configured {
            if x.cur.buffer is Some {
                StateOutcome { state: st, actions: Seq::empty(), result: Err(Error::UnmappedSurfaceBuffer) }
            } else {
                StateOutcome {
                    state: st.with_surface(
                        i,
                        SurfaceV { configured: true, ..with_toplevel(x, t.initially_configured()) },
                    ),
                    actions: t.initial_events(xdg.wl),
                    result: Ok(()),
                }
            }
        } else if !x.mapped {
            if Some(t.cur_configure.serial) != xdg.last_acked_configure {
                StateOutcome { state: st, actions: Seq::empty(), result: Err(Error::InitialConfigureNotAcked) }
            } else if x.cur.buffer is Some {
                let (px, py) = st.new_window_position();
                StateOutcome {
                    state: StateV {
                        focus_stack: st.focus_stack.push(i as usize),
                        ..st.with_surface(
                            i,
                            SurfaceV { mapped: true, ..with_toplevel(x, XdgToplevelRole { x: px, y: py, ..t }) },
                        )
                    },
                    actions: Seq::empty(),
                    result: Ok(()),
                }
            } else {
                StateOutcome { state: st, actions: Seq::empty(), result: Ok(()) }
            }
        } else if x.cur.buffer is None {
            StateOutcome { state: st.unmapped(i), actions: st.unmap_events(i), result: Ok(()) }
        } else if t.resizing is Some {
            StateOutcome {
                state: st.with_surface(
                    i,
                    with_toplevel(
                        x,
                        t.resize_committed(xdg.effective_window_geometry->0, xdg.last_acked_configure),
                    ),
                ),
                actions: Seq::empty(),
                result: Ok(()),
            }
        } else {
            StateOutcome { state: st, actions: Seq::empty(), result: Ok(()) }
        }
    }

    /// What comes of a commit on the popup that surface `i` is.
    pub open spec fn popup_committed(self, i: int) -> StateOutcome {
        let s = self.compositor.surfaces;
        let x = s[i];
        let xdg = x.xdg()->0;
        let p = xdg.specific->Popup_0;
        if !x.configured {
            if x.cur.buffer is Some {
                StateOutcome { state: self, actions: Seq::empty(), result: Err(Error::UnmappedSurfaceBuffer) }
            } else {
                StateOutcome {
                    state: self.with_surface(i, SurfaceV { configured: true, ..with_popup(x, p.configured()) }),
                    actions: p.configure_events(xdg.wl),
                    result: Ok(()),
                }
            }
        } else if !x.mapped {
            if x.cur.buffer is None {
                StateOutcome { state: self, actions: Seq::empty(), result: Err(Error::NoInitialBuffer) }
            } else if Some(p.last_serial) != xdg.last_acked_configure {
                StateOutcome { state: self, actions: Seq::empty(), result: Err(Error::InitialConfigureNotAcked) }
            } else {
                let parent = p.parent as int;
                let t = s.update(
                    parent,
                    with_window(s[parent], XdgSurfaceRole { popup: Some(i as usize), ..s[parent].xdg()->0 }),
                );
                StateOutcome {
                    state: StateV {
                        popup_stack: self.popup_stack.push(p.wl),
                        ..self.with_surfaces(t.update(i, SurfaceV { mapped: true, ..t[i] }))
                    },
                    actions: Seq::empty(),
                    result: Ok(()),
                }
            }
        } else {
            StateOutcome { state: self, actions: Seq::empty(), result: Ok(()) }
        }
    }

    /// What comes of a commit on the window that surface `i` is.
    pub open spec fn xdg_committed(self, i: int) -> StateOutcome {
        let s = self.compositor.surfaces;
        let xdg = s[i].xdg()->0.geometry_committed(bounding_box(s, i));
        let st = self.with_surface(i, with_window(s[i], xdg));
        match xdg.specific {
            SpecificRole::NoRole => StateOutcome { state: st, actions: Seq::empty(), result: Ok(()) },
            SpecificRole::Toplevel(_) => st.toplevel_committed(i),
            SpecificRole::Popup(_) => st.popup_committed(i),
        }
    }

    /// Whether a commit on the window that surface `i` is can be handled: a geometry that was set has
    /// a part inside the surface, a window that is being resized has a geometry, and a popup keeps
    /// its buffer and has its parent.
    pub open spec fn xdg_commit_supported(self, i: int) -> bool {
        let s = self.compositor.surfaces;
        let x = s[i];
        let bbox = bounding_box(s, i);
        let xdg = x.xdg()->0.geometry_committed(bbox);
        &&& x.xdg()->0.geometry_fits(bbox)
        &&& match xdg.specific {
            SpecificRole::NoRole => true,
            SpecificRole::Toplevel(t) => x.configured && x.mapped && x.cur.buffer is Some && t.resizing is Some
                ==> xdg.effective_window_geometry is Some,
            SpecificRole::Popup(p) => {
                &&& x.configured && !x.mapped && x.cur.buffer is Some ==> parent_alive(s, p.parent as int, p.parent_wl)
                &&& x.configured && x.mapped ==> x.cur.buffer is Some
            },
        }
    }

    /// What comes of a commit on surface `i`, with the buffer that the renderer has for what was
    /// attached.
    pub open spec fn committed(self, i: int, buffer: Option<CommittedBuffer>) -> StateOutcome {
        let s = self.compositor.surfaces;
        let o = state_committed(s, i, buffer);
        let st = self.with_surfaces(o.surfaces);
        if o.result is Err || effective_is_sync(s, i) || s[i].role !is Xdg {
            StateOutcome { state: st, actions: o.actions, result: o.result }
        } else {
            let w = st.xdg_committed(i);
            StateOutcome { state: w.state, actions: o.actions + w.actions, result: w.result }
        }
    }

    /// Whether a commit on surface `i` can be handled.
    pub open spec fn commit_supported(self, i: int, buffer: Option<CommittedBuffer>) -> bool {
        let s = self.compositor.surfaces;
        let o = state_committed(s, i, buffer);
        o.result is Ok && !effective_is_sync(s, i) && s[i].role is Xdg ==> self.with_surfaces(
            o.surfaces,
        ).xdg_commit_supported(i)
    }
}

/// The surface as the toplevel `t`.
pub open spec fn with_toplevel(x: SurfaceV, t: XdgToplevelRole) -> SurfaceV {
    with_window(x, XdgSurfaceRole { specific: SpecificRole::Toplevel(t), ..x.xdg()->0 })
}

/// The surface as the popup `p`.
pub open spec fn with_popup(x: SurfaceV, p: XdgPopupRole) -> SurfaceV {
    with_window(x, XdgSurfaceRole { specific: SpecificRole::Popup(p), ..x.xdg()->0 })
}

/// What a surface shows can change its flags together with its window.
pub(crate) proof fn lemma_flags(s: Seq<SurfaceV>, i: int, mapped: bool, configured: bool)
    requires
        surfaces_wf(s),
        0 <= i < s.len(),
        mapped || configured ==> s[i].is_toplevel() || s[i].is_popup(),
    ensures
        surfaces_wf(s.update(i, SurfaceV { mapped, configured, ..s[i] })),
        same_links(s, s.update(i, SurfaceV { mapped, configured, ..s[i] })),
{
    let t = s.update(i, SurfaceV { mapped, configured, ..s[i] });
    assert forall|j: int| 0 <= j < t.len() implies #[trigger] surface_wf(t, j) by {
        assert(surface_wf(s, j));
        assert forall|k: int, c: int| is_child(s, k, c) implies is_child(t, k, c) by {}
    }
    assert forall|j: int| 0 <= j < s.len() implies up(s, j) == #[trigger] up(t, j) by {}
}

/// Where the toplevels that are shown are the same, the focus stack is still right.
pub(crate) proof fn lemma_focus_kept(stack: Seq<usize>, a: Seq<SurfaceV>, b: Seq<SurfaceV>)
    requires
        focus_wf(stack, a),
        a.len() == b.len(),
        forall|j: int| 0 <= j < a.len() ==> #[trigger] shown_toplevel(b, j) == shown_toplevel(a, j),
    ensures
        focus_wf(stack, b),
{
    assert forall|k: int| 0 <= k < stack.len() implies shown_toplevel(b, #[trigger] stack[k] as int) by {
        assert(shown_toplevel(a, stack[k] as int));
    }
    assert forall|i: int| 0 <= i < b.len() && #[trigger] shown_toplevel(b, i) implies stack.contains(i as usize) by {
        assert(shown_toplevel(a, i));
    }
}

/// What holds of the state when a client is about to be removed: its own surfaces may be in disorder.
pub open spec fn client_removable(st: StateV, client: ClientId) -> bool {
    let c = st.compositor;
    &&& others_wf(c.surfaces, client)
    &&& forall|v: int|
        0 <= v < c.viewporters.len() && (#[trigger] c.viewporters[v]) is Some ==> c.viewporters[v]->0 < c.surfaces.len()
    &&& forall|p: int|
        0 <= p < c.xdg_positioners.len() && (#[trigger] c.xdg_positioners[p]) is Some ==> c.xdg_positioners[p]->0.wf()
    &&& c.surfaces.len() <= usize::MAX
    &&& focus_wf(st.focus_stack, c.surfaces)
    &&& st.cursor.wf(c.surfaces)
}

/// A client can be removed at any time.
pub proof fn lemma_removable(st: StateV, client: ClientId)
    requires
        state_wf(st),
    ensures
        client_removable(st, client),
{
    let s = st.compositor.surfaces;
    assert forall|j: int| 0 <= j < s.len() implies up(s, j) == #[trigger] up(s, j) by {}
    assert forall|j: int| 0 <= j < s.len() implies (#[trigger] s[j]).wl == s[j].wl by {}
    law_clients_are_apart(s, s, client);
}

/// A commit on a window whose edge is dragged puts the window where the point opposite of the edge
/// stays in place, and ends the dragging if and only if the client has acknowledged the last request
/// for a size or a later one. See
/// [`law_resize_keeps_opposite_point`](crate::globals::xdg_shell::toplevel::law_resize_keeps_opposite_point)
/// for what the point is.
pub proof fn law_commit_keeps_opposite_point(st: StateV, i: int, edge: ResizeEdge, x: i32, y: i32, serial: u32)
    requires
        0 <= i < st.compositor.surfaces.len(),
        st.compositor.surfaces[i].is_toplevel(),
        st.compositor.surfaces[i].configured,
        st.compositor.surfaces[i].mapped,
        st.compositor.surfaces[i].cur.buffer is Some,
        st.compositor.surfaces[i].xdg()->0.specific->Toplevel_0.resizing == Some((edge, x, y, serial)),
        st.xdg_commit_supported(i),
    ensures
        ({
            let o = st.xdg_committed(i);
            let xdg = o.state.compositor.surfaces[i].xdg()->0;
            let t = xdg.specific->Toplevel_0;
            let q = xdg.effective_window_geometry->0.opposite_edge_point(edge);
            &&& o.result is Ok
            &&& o.state.compositor.surfaces[i].is_toplevel()
            &&& xdg.effective_window_geometry is Some
            &&& t.x.wrapping_add(q.0) == x
            &&& t.y.wrapping_add(q.1) == y
            &&& t.resizing is None == XdgToplevelRole::reached(xdg.last_acked_configure, serial)
            &&& t.resizing is Some ==> t.resizing == Some((edge, x, y, serial))
        }),
{
}

/// A subsurface is not shown by itself: to stop showing it changes nothing, and nothing is sent.
pub proof fn law_subsurface_is_not_shown_by_itself(st: StateV, i: int, c: int)
    requires
        state_wf(st),
        is_child(st.compositor.surfaces, i, c),
    ensures
        st.unmapped(c) == st,
        st.unmap_events(c) == Seq::<Action>::empty(),
{
    let s = st.compositor.surfaces;
    assert(surface_wf(s, c));
    assert(s.update(c, s[c]) =~= s);
}

impl State {
    /// A state without clients.
    pub fn new(seat: Seat) -> (r: Self)
        ensures
            r@.seat == seat@,
            r@.compositor.surfaces.len() == 0,
            r@.compositor.regions.len() == 0,
            r@.compositor.xdg_positioners.len() == 0,
            r@.compositor.viewporters.len() == 0,
            r@.focus_stack.len() == 0,
            r@.popup_stack.len() == 0,
            r@.cursor == (CursorV { kind: Kind::Hidden, shapes: Map::empty() }),
            state_wf(r@),
            acyclic(r@.compositor.surfaces),
    {
        Self {
            compositor: Compositor::new(),
            focus_stack: FocusStack::new(),
            popup_stack: Vec::new(),
            seat,
            cursor: Cursor::new(),
        }
    }

    /// Stops showing a surface.
    pub fn unmap(&mut self, i: usize, actions: &mut Vec<Action>)
        requires
            state_wf(old(self)@),
            i < old(self)@.compositor.surfaces.len(),
        ensures
            final(self)@ == old(self)@.unmapped(i as int),
            final(actions)@ == old(actions)@ + old(self)@.unmap_events(i as int),
            state_wf(final(self)@),
            same_links(old(self)@.compositor.surfaces, final(self)@.compositor.surfaces),
            others_unchanged(
                old(self)@.compositor.surfaces,
                final(self)@.compositor.surfaces,
                old(self)@.compositor.surfaces[i as int].wl.client,
            ),
    {
        let ghost st = self@;
        let ghost s = st.compositor.surfaces;
        let ghost x = s[i as int];
        let ghost a0 = actions@;
        proof {
            assert(self.compositor.surfaces.list@[i as int]@ == x);
            assert(surface_wf(s, i as int));
            assert(a0 + Seq::<Action>::empty() =~= a0);
        }
        if self.compositor.surfaces.list[i].mapped {
            if self.compositor.surfaces.get(i).get_xdg_toplevel().is_some() {
                self.focus_stack.remove(i);
            }
            let wl = self.compositor.surfaces.list[i].wl;
            self.seat.surface_unmapped(wl, actions);
        }
        self.compositor.surfaces.list[i].mapped = false;
        self.compositor.surfaces.list[i].configured = false;
        proof {
            let t = s.update(i as int, SurfaceV { mapped: false, configured: false, ..x });
            assert(self@.compositor.surfaces =~= t);
            lemma_flags(s, i as int, false, false);
            lemma_removed(st.focus_stack, i);
            let stack = self@.focus_stack;
            assert forall|k: int| 0 <= k < stack.len() implies shown_toplevel(t, #[trigger] stack[k] as int) by {
                assert(stack.contains(stack[k]));
                let l = choose|l: int| 0 <= l < st.focus_stack.len() && st.focus_stack[l] == stack[k];
                assert(shown_toplevel(s, st.focus_stack[l] as int));
            }
            assert forall|j: int| 0 <= j < t.len() && #[trigger] shown_toplevel(t, j) implies stack.contains(
                j as usize,
            ) by {
                assert(shown_toplevel(s, j));
            }
        }
    }

    fn toplevel_committed(&mut self, i: usize, actions: &mut Vec<Action>) -> (r: Result<(), Error>)
        requires
            state_wf(old(self)@),
            i < old(self)@.compositor.surfaces.len(),
            old(self)@.compositor.surfaces[i as int].is_toplevel(),
            ({
                let x = old(self)@.compositor.surfaces[i as int];
                x.configured && x.mapped && x.cur.buffer is Some && x.xdg()->0.specific->Toplevel_0.resizing is Some
                    ==> x.xdg()->0.effective_window_geometry is Some
            }),
        ensures
            final(self)@ == old(self)@.toplevel_committed(i as int).state,
            final(actions)@ == old(actions)@ + old(self)@.toplevel_committed(i as int).actions,
            r == old(self)@.toplevel_committed(i as int).result,
            state_wf(final(self)@),
            same_links(old(self)@.compositor.surfaces, final(self)@.compositor.surfaces),
            others_unchanged(
                old(self)@.compositor.surfaces,
                final(self)@.compositor.surfaces,
                old(self)@.compositor.surfaces[i as int].wl.client,
            ),
    {
        let ghost st0 = self@;
        let ghost s0 = st0.compositor.surfaces;
        let ghost x = s0[i as int];
        let ghost xdg = x.xdg()->0;
        let ghost t = xdg.specific->Toplevel_0.state_committed();
        let ghost a0 = actions@;
        let ghost o = st0.toplevel_committed(i as int);
        proof {
            assert(self.compositor.surfaces.list@[i as int]@ == x);
            assert(surface_wf(s0, i as int));
            assert(a0 + Seq::<Action>::empty() =~= a0);
        }
        let (xdg_wl, acked, geom, serial, resizing) = match &mut self.compositor.surfaces.list[i].role {
            SurfaceRole::Xdg(xdg) => match &mut xdg.specific {
                SpecificRole::Toplevel(t) => {
                    t.commit_state();
                    (
                        xdg.wl,
                        xdg.last_acked_configure,
                        xdg.effective_window_geometry,
                        t.cur_configure.serial,
                        t.resizing.is_some(),
                    )
                },
                _ => {
                    assert(false);
                    return Ok(());
                },
            },
            _ => {
                assert(false);
                return Ok(());
            },
        };
        let ghost s1 = s0.update(i as int, with_toplevel(x, t));
        let ghost st1 = st0.with_surface(i as int, with_toplevel(x, t));
        proof {
            assert(self@.compositor.surfaces =~= s1);
            lemma_window_changes(s0, i as int, s1[i as int].xdg()->0);
            lemma_focus_kept(st0.focus_stack, s0, s1);
            assert(self@ =~= st1);
        }
        let configured = self.compositor.surfaces.list[i].configured;
        let mapped = self.compositor.surfaces.list[i].mapped;
        let has_buffer = self.compositor.surfaces.list[i].cur.buffer.is_some();
        if !configured {
            if has_buffer {
                return Err(Error::UnmappedSurfaceBuffer);
            }
            if let SurfaceRole::Xdg(xdg) = &mut self.compositor.surfaces.list[i].role {
                if let SpecificRole::Toplevel(t) = &mut xdg.specific {
                    t.send_initial_configure(xdg_wl, actions);
                }
            }
            let ghost s2 = s1.update(i as int, with_toplevel(x, t.initially_configured()));
            proof {
                assert(self@.compositor.surfaces =~= s2);
                lemma_window_changes(s1, i as int, s2[i as int].xdg()->0);
                lemma_flags(s2, i as int, x.mapped, true);
            }
            self.compositor.surfaces.list[i].configured = true;
            proof {
                let s3 = o.state.compositor.surfaces;
                assert(self@.compositor.surfaces =~= s3);
                assert(s3 =~= s2.update(i as int, SurfaceV { mapped: x.mapped, configured: true, ..s2[i as int] }));
                lemma_focus_kept(st0.focus_stack, s0, s3);
            }
        } else if !mapped {
            if Some(serial) != acked {
                return Err(Error::InitialConfigureNotAcked);
            }
            if has_buffer {
                let (px, py) = match self.focus_stack.top() {
                    Some(top) => self.toplevel_offset(top),
                    None => (20, 20),
                };
                if let SurfaceRole::Xdg(xdg) = &mut self.compositor.surfaces.list[i].role {
                    if let SpecificRole::Toplevel(t) = &mut xdg.specific {
                        t.x = px;
                        t.y = py;
                    }
                }
                let ghost s2 = s1.update(i as int, with_toplevel(x, XdgToplevelRole { x: px, y: py, ..t }));
                proof {
                    assert(self@.compositor.surfaces =~= s2);
                    lemma_window_changes(s1, i as int, s2[i as int].xdg()->0);
                    lemma_flags(s2, i as int, true, x.configured);
                }
                self.focus_stack.push(i);
                self.compositor.surfaces.list[i].mapped = true;
                proof {
                    let s3 = o.state.compositor.surfaces;
                    let stack = self@.focus_stack;
                    assert(self@.compositor.surfaces =~= s3);
                    assert(s3 =~= s2.update(i as int, SurfaceV { mapped: true, configured: x.configured, ..s2[i as int] }));
                    assert(stack == st0.focus_stack.push(i));
                    assert forall|k: int| 0 <= k < stack.len() implies shown_toplevel(s3, #[trigger] stack[k] as int) by {
                        if k < st0.focus_stack.len() {
                            assert(shown_toplevel(s0, st0.focus_stack[k] as int));
                        }
                    }
                    assert forall|j: int| 0 <= j < s3.len() && #[trigger] shown_toplevel(s3, j) implies stack.contains(
                        j as usize,
                    ) by {
                        if j == i {
                            assert(stack[stack.len() - 1] == i);
                        } else {
                            assert(shown_toplevel(s0, j));
                            let l = choose|l: int| 0 <= l < st0.focus_stack.len() && st0.focus_stack[l] == j as usize;
                            assert(stack[l] == j as usize);
                        }
                    }
                    assert(stack.no_duplicates()) by {
                        assert forall|k: int| 0 <= k < st0.focus_stack.len() implies st0.focus_stack[k] != i by {
                            assert(shown_toplevel(s0, st0.focus_stack[k] as int));
                        }
                    }
                }
            }
        } else if !has_buffer {
            self.unmap(i, actions);
        } else if resizing {
            let g = match geom {
                Some(g) => g,
                None => {
                    assert(false);
                    return Ok(());
                },
            };
            if let SurfaceRole::Xdg(xdg) = &mut self.compositor.surfaces.list[i].role {
                if let SpecificRole::Toplevel(t) = &mut xdg.specific {
                    t.commit_resize(g, acked);
                }
            }
            proof {
                let s2 = o.state.compositor.surfaces;
                assert(self@.compositor.surfaces =~= s2);
                lemma_window_changes(s1, i as int, s2[i as int].xdg()->0);
                lemma_focus_kept(st0.focus_stack, s0, s2);
            }
        }
        Ok(())
    }

    /// A place a bit below and to the right of a toplevel.
    fn toplevel_offset(&self, i: usize) -> (r: (i32, i32))
        requires
            i < self@.compositor.surfaces.len(),
            self@.compositor.surfaces[i as int].is_toplevel(),
        ensures
            ({
                let t = self@.compositor.surfaces[i as int].xdg()->0.specific->Toplevel_0;
                r == (t.x.wrapping_add(50), t.y.wrapping_add(50))
            }),
    {
        let surface = self.compositor.surfaces.get(i);
        match &surface.role {
            SurfaceRole::Xdg(xdg) => match &xdg.specific {
                SpecificRole::Toplevel(t) => (t.x.wrapping_add(50), t.y.wrapping_add(50)),
                _ => (0, 0),
            },
            _ => (0, 0),
        }
    }
}

/// A window can be linked to a popup that was made for it.
proof fn lemma_popup_shown(s: Seq<SurfaceV>, i: int)
    requires
        surfaces_wf(s),
        0 <= i < s.len() <= usize::MAX,
        s[i].is_popup(),
        ({
            let p = s[i].xdg()->0.specific->Popup_0;
            parent_alive(s, p.parent as int, p.parent_wl)
        }),
    ensures
        ({
            let parent = s[i].xdg()->0.specific->Popup_0.parent as int;
            let t = s.update(
                parent,
                with_window(s[parent], XdgSurfaceRole { popup: Some(i as usize), ..s[parent].xdg()->0 }),
            );
            surfaces_wf(t) && same_links(s, t)
        }),
{
    let parent = s[i].xdg()->0.specific->Popup_0.parent as int;
    let t = s.update(parent, with_window(s[parent], XdgSurfaceRole { popup: Some(i as usize), ..s[parent].xdg()->0 }));
    assert(surface_wf(s, parent));
    assert forall|j: int| 0 <= j < t.len() implies #[trigger] surface_wf(t, j) by {
        assert(surface_wf(s, j));
        assert forall|k: int, c: int| is_child(s, k, c) implies is_child(t, k, c) by {}
    }
    assert forall|j: int| 0 <= j < s.len() implies up(s, j) == #[trigger] up(t, j) by {}
}

/// The surface as a window that is neither toplevel nor popup.
pub open spec fn with_no_role(x: SurfaceV) -> SurfaceV {
    with_window(x, XdgSurfaceRole { specific: SpecificRole::NoRole, ..x.xdg()->0 })
}

/// A window that is not shown, and that no other window has as its popup, can stop being a toplevel
/// or a popup.
pub(crate) proof fn lemma_specific_gone(s: Seq<SurfaceV>, i: int)
    requires
        surfaces_wf(s),
        0 <= i < s.len(),
        s[i].role is Xdg,
        !s[i].mapped && !s[i].configured,
        forall|j: int| 0 <= j < s.len() ==> !(#[trigger] has_popup(s, j, i)),
    ensures
        surfaces_wf(s.update(i, with_no_role(s[i]))),
        forall|j: int|
            0 <= j < s.len() ==> #[trigger] up(s.update(i, with_no_role(s[i])), j) == up(s, j) || up(
                s.update(i, with_no_role(s[i])),
                j,
            ) is None,
{
    let t = s.update(i, with_no_role(s[i]));
    assert forall|j: int| 0 <= j < t.len() implies #[trigger] surface_wf(t, j) by {
        assert(surface_wf(s, j));
        assert(!has_popup(s, j, i));
        assert forall|k: int, c: int| is_child(s, k, c) implies is_child(t, k, c) by {}
    }
}

/// Whether surface `i` is the popup of the window that surface `j` is.
pub open spec fn has_popup(s: Seq<SurfaceV>, j: int, i: int) -> bool {
    s[j].role matches SurfaceRoleV::Xdg(xdg) && xdg.popup == Some(i as usize)
}

impl State {
    fn popup_committed(&mut self, i: usize, actions: &mut Vec<Action>) -> (r: Result<(), Error>)
        requires
            state_wf(old(self)@),
            i < old(self)@.compositor.surfaces.len(),
            old(self)@.compositor.surfaces[i as int].is_popup(),
            ({
                let x = old(self)@.compositor.surfaces[i as int];
                let p = x.xdg()->0.specific->Popup_0;
                x.configured && !x.mapped && x.cur.buffer is Some ==> parent_alive(
                    old(self)@.compositor.surfaces,
                    p.parent as int,
                    p.parent_wl,
                )
            }),
        ensures
            final(self)@ == old(self)@.popup_committed(i as int).state,
            final(actions)@ == old(actions)@ + old(self)@.popup_committed(i as int).actions,
            r == old(self)@.popup_committed(i as int).result,
            state_wf(final(self)@),
            same_links(old(self)@.compositor.surfaces, final(self)@.compositor.surfaces),
            others_unchanged(
                old(self)@.compositor.surfaces,
                final(self)@.compositor.surfaces,
                old(self)@.compositor.surfaces[i as int].wl.client,
            ),
    {
        let ghost st0 = self@;
        let ghost s0 = st0.compositor.surfaces;
        let ghost x = s0[i as int];
        let ghost xdg = x.xdg()->0;
        let ghost p = xdg.specific->Popup_0;
        let ghost a0 = actions@;
        let ghost o = st0.popup_committed(i as int);
        proof {
            assert(self.compositor.surfaces.list@[i as int]@ == x);
            assert(surface_wf(s0, i as int));
            assert(a0 + Seq::<Action>::empty() =~= a0);
        }
        let (xdg_wl, acked, parent, popup_wl, last_serial) = match &self.compositor.surfaces.get(i).role {
            SurfaceRole::Xdg(xdg) => match &xdg.specific {
                SpecificRole::Popup(p) => (xdg.wl, xdg.last_acked_configure, p.parent, p.wl, p.last_serial),
                _ => {
                    assert(false);
                    return Ok(());
                },
            },
            _ => {
                assert(false);
                return Ok(());
            },
        };
        let configured = self.compositor.surfaces.list[i].configured;
        let mapped = self.compositor.surfaces.list[i].mapped;
        let has_buffer = self.compositor.surfaces.list[i].cur.buffer.is_some();
        if !configured {
            if has_buffer {
                return Err(Error::UnmappedSurfaceBuffer);
            }
            if let SurfaceRole::Xdg(xdg) = &mut self.compositor.surfaces.list[i].role {
                if let SpecificRole::Popup(p) = &mut xdg.specific {
                    p.configure(xdg_wl, actions);
                }
            }
            let ghost s1 = s0.update(i as int, with_popup(x, p.configured()));
            proof {
                assert(self@.compositor.surfaces =~= s1);
                lemma_window_changes(s0, i as int, s1[i as int].xdg()->0);
                lemma_flags(s1, i as int, x.mapped, true);
            }
            self.compositor.surfaces.list[i].configured = true;
            proof {
                let s2 = o.state.compositor.surfaces;
                assert(self@.compositor.surfaces =~= s2);
                assert(s2 =~= s1.update(i as int, SurfaceV { mapped: x.mapped, configured: true, ..s1[i as int] }));
                lemma_focus_kept(st0.focus_stack, s0, s2);
            }
        } else if !mapped {
            if !has_buffer {
                return Err(Error::NoInitialBuffer);
            }
            if Some(last_serial) != acked {
                return Err(Error::InitialConfigureNotAcked);
            }
            proof {
                lemma_popup_shown(s0, i as int);
            }
            assert(self.compositor.surfaces.list@[parent as int]@ == s0[parent as int]);
            if let SurfaceRole::Xdg(parent_xdg) = &mut self.compositor.surfaces.list[parent].role {
                parent_xdg.popup = Some(i);
            }
            let ghost s1 = s0.update(
                parent as int,
                with_window(s0[parent as int], XdgSurfaceRole { popup: Some(i), ..s0[parent as int].xdg()->0 }),
            );
            proof {
                assert(self@.compositor.surfaces =~= s1);
                lemma_flags(s1, i as int, true, x.configured);
            }
            self.popup_stack.push(popup_wl);
            self.compositor.surfaces.list[i].mapped = true;
            proof {
                let s2 = o.state.compositor.surfaces;
                assert(self@.compositor.surfaces =~= s2);
                assert(s2 =~= s1.update(i as int, SurfaceV { mapped: true, configured: x.configured, ..s1[i as int] }));
                lemma_focus_kept(st0.focus_stack, s0, s2);
            }
        }
        Ok(())
    }

    /// Tells the window that surface `i` is of a commit.
    pub fn xdg_committed(&mut self, i: usize, actions: &mut Vec<Action>) -> (r: Result<(), Error>)
        requires
            state_wf(old(self)@),
            acyclic(old(self)@.compositor.surfaces),
            i < old(self)@.compositor.surfaces.len(),
            old(self)@.compositor.surfaces[i as int].role is Xdg,
            old(self)@.xdg_commit_supported(i as int),
        ensures
            final(self)@ == old(self)@.xdg_committed(i as int).state,
            final(actions)@ == old(actions)@ + old(self)@.xdg_committed(i as int).actions,
            r == old(self)@.xdg_committed(i as int).result,
            state_wf(final(self)@),
            same_links(old(self)@.compositor.surfaces, final(self)@.compositor.surfaces),
            others_unchanged(
                old(self)@.compositor.surfaces,
                final(self)@.compositor.surfaces,
                old(self)@.compositor.surfaces[i as int].wl.client,
            ),
    {
        let ghost st0 = self@;
        let ghost s0 = st0.compositor.surfaces;
        let ghost x = s0[i as int];
        let ghost a0 = actions@;
        proof {
            assert(self.compositor.surfaces.list@[i as int]@ == x);
            assert(surface_wf(s0, i as int));
            assert(a0 + Seq::<Action>::empty() =~= a0);
        }
        let bbox = self.compositor.surfaces.get_bounding_box(i);
        let kind: u8 = match &mut self.compositor.surfaces.list[i].role {
            SurfaceRole::Xdg(xdg) => {
                xdg.commit_geometry(bbox);
                match &xdg.specific {
                    SpecificRole::NoRole => 0,
                    SpecificRole::Toplevel(_) => 1,
                    SpecificRole::Popup(_) => 2,
                }
            },
            _ => {
                assert(false);
                0
            },
        };
        proof {
            let xdg = x.xdg()->0.geometry_committed(bounding_box(s0, i as int));
            let s1 = s0.update(i as int, with_window(x, xdg));
            assert(self@.compositor.surfaces =~= s1);
            lemma_window_changes(s0, i as int, xdg);
            lemma_focus_kept(st0.focus_stack, s0, s1);
            let p = xdg.specific->Popup_0;
            if xdg.specific is Popup && parent_alive(s0, p.parent as int, p.parent_wl) {
                assert(parent_alive(s1, p.parent as int, p.parent_wl));
            }
        }
        if kind == 0 {
            Ok(())
        } else if kind == 1 {
            self.toplevel_committed(i, actions)
        } else {
            self.popup_committed(i, actions)
        }
    }

    /// Whether a commit on the window that surface `i` is can be handled.
    pub fn can_commit_xdg(&self, i: usize) -> (r: bool)
        requires
            state_wf(self@),
            acyclic(self@.compositor.surfaces),
            i < self@.compositor.surfaces.len(),
            self@.compositor.surfaces[i as int].role is Xdg,
        ensures
            r == self@.xdg_commit_supported(i as int),
    {
        let bbox = self.compositor.surfaces.get_bounding_box(i);
        let surface = self.compositor.surfaces.get(i);
        assert(surface_wf(self@.compositor.surfaces, i as int));
        let has_buffer = surface.cur.buffer.is_some();
        match &surface.role {
            SurfaceRole::Xdg(xdg) => {
                if !xdg.check_geometry(bbox) {
                    return false;
                }
                match &xdg.specific {
                    SpecificRole::NoRole => true,
                    SpecificRole::Toplevel(t) => {
                        if surface.configured && surface.mapped && has_buffer && t.resizing.is_some() {
                            xdg.has_geometry_after(bbox)
                        } else {
                            true
                        }
                    },
                    SpecificRole::Popup(p) => {
                        if surface.configured && !surface.mapped && has_buffer {
                            match self.compositor.surfaces.get(p.parent).get_xdg_surface() {
                                Some(parent) => parent.wl == p.parent_wl,
                                None => false,
                            }
                        } else if surface.configured && surface.mapped {
                            has_buffer
                        } else {
                            true
                        }
                    },
                }
            },
            _ => false,
        }
    }

    /// Commits surface `i`, unless the window that it is cannot take the commit. `buffer` is what the
    /// renderer has for the attached buffer.
    pub fn try_commit(&mut self, i: usize, buffer: Option<CommittedBuffer>, actions: &mut Vec<Action>) -> (r: Option<
        Result<(), Error>,
    >)
        requires
            state_wf(old(self)@),
            acyclic(old(self)@.compositor.surfaces),
            i < old(self)@.compositor.surfaces.len(),
        ensures
            r is Some == old(self)@.commit_supported(i as int, buffer),
            r matches Some(result) ==> {
                &&& final(self)@ == old(self)@.committed(i as int, buffer).state
                &&& final(actions)@ == old(actions)@ + old(self)@.committed(i as int, buffer).actions
                &&& result == old(self)@.committed(i as int, buffer).result
                &&& (result is Ok ==> state_wf(final(self)@))
                &&& acyclic(final(self)@.compositor.surfaces)
                &&& client_removable(final(self)@, old(self)@.compositor.surfaces[i as int].wl.client)
                &&& others_unchanged(
                    old(self)@.compositor.surfaces,
                    final(self)@.compositor.surfaces,
                    old(self)@.compositor.surfaces[i as int].wl.client,
                )
            },
    {
        let ghost st0 = self@;
        let ghost s0 = st0.compositor.surfaces;
        let ghost a0 = actions@;
        let ghost o = state_committed(s0, i as int, buffer);
        let is_xdg = self.compositor.surfaces.get(i).get_xdg_surface().is_some();
        let r = self.compositor.commit_surface_state(i, buffer, actions);
        let ghost st1 = st0.with_surfaces(o.surfaces);
        proof {
            assert(self@ =~= st1);
            if o.result is Ok {
                assert(o.result->Ok_0 == ());
            }
        }
        proof {
            assert forall|j: int| 0 <= j < s0.len() implies #[trigger] shown_toplevel(o.surfaces, j)
                == shown_toplevel(s0, j) by {
                assert(state_changed(s0[j], o.surfaces[j]));
            }
            lemma_focus_kept(st0.focus_stack, s0, o.surfaces);
            assert forall|j: int| 0 <= j < s0.len() implies up(s0, j) == #[trigger] up(o.surfaces, j) by {
                assert(state_changed(s0[j], o.surfaces[j]));
            }
            assert forall|j: int| 0 <= j < s0.len() implies (#[trigger] o.surfaces[j]).wl == s0[j].wl by {
                assert(state_changed(s0[j], o.surfaces[j]));
            }
            law_clients_are_apart(s0, o.surfaces, s0[i as int].wl.client);
        }
        match r {
            Err(e) => Some(Err(e)),
            Ok(applied) => {
                proof {
                    assert(state_changed(s0[i as int], o.surfaces[i as int]));
                }
                if applied && is_xdg {
                    if !self.can_commit_xdg(i) {
                        return None;
                    }
                    let r = self.xdg_committed(i, actions);
                    proof {
                        let w = st1.xdg_committed(i as int);
                        assert(actions@ =~= a0 + (o.actions + w.actions));
                        lemma_acyclic_kept(o.surfaces, self@.compositor.surfaces);
                        lemma_removable(self@, s0[i as int].wl.client);
                    }
                    Some(r)
                } else {
                    Some(Ok(()))
                }
            },
        }
    }

    /// Commits surface `i`. `buffer` is what the renderer has for the attached buffer.
    pub fn commit(&mut self, i: usize, buffer: Option<CommittedBuffer>, actions: &mut Vec<Action>) -> (r: Result<
        (),
        Error,
    >)
        requires
            state_wf(old(self)@),
            acyclic(old(self)@.compositor.surfaces),
            i < old(self)@.compositor.surfaces.len(),
            old(self)@.commit_supported(i as int, buffer),
        ensures
            final(self)@ == old(self)@.committed(i as int, buffer).state,
            final(actions)@ == old(actions)@ + old(self)@.committed(i as int, buffer).actions,
            r == old(self)@.committed(i as int, buffer).result,
            r is Ok ==> state_wf(final(self)@),
            acyclic(final(self)@.compositor.surfaces),
            client_removable(final(self)@, old(self)@.compositor.surfaces[i as int].wl.client),
            others_unchanged(
                old(self)@.compositor.surfaces,
                final(self)@.compositor.surfaces,
                old(self)@.compositor.surfaces[i as int].wl.client,
            ),
    {
        match self.try_commit(i, buffer, actions) {
            Some(r) => r,
            None => {
                assert(false);
                Ok(())
            },
        }
    }
}

} // verus!
