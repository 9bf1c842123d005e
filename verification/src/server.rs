//! What is done when nothing is left to be done, and when a client is gone.
use vstd::prelude::*;
use crate::client::ClientId;
use crate::focus_stack::removed_client;
use crate::globals::compositor::{Surface, SurfaceRole, SurfaceRoleV, SurfaceV};
use crate::globals::subsurfaces::{lemma_unlink_acyclic, others_unchanged};
use crate::globals::surfaces::{
    acyclic, is_child, list_wf, same_links, surface_wf, surfaces_wf, up, Surfaces,
};
use crate::globals::xdg_shell::requests::lemma_window_changes;
use crate::globals::xdg_shell::toplevel::XdgToplevelRole;
use crate::globals::xdg_shell::SpecificRole;
use crate::protocol::{Action, Handle};
use crate::state::{client_removable, lemma_focus_kept, shown_toplevel, state_wf, with_toplevel, State, StateV};

verus! {

/// Surfaces and what was sent.
#[verifier::ext_equal]
pub struct Told {
    pub surfaces: Seq<SurfaceV>,
    pub actions: Seq<Action>,
}

/// The surfaces and what was sent after the first windows of a stack of `n` were told what is asked of
/// them. The last of the `n` is the active one.
pub open spec fn windows_told(s: Seq<SurfaceV>, stack: Seq<usize>, n: int) -> Told
    decreases stack.len(),
{
    if stack.len() == 0 {
        Told { surfaces: s, actions: Seq::empty() }
    } else {
        let before = windows_told(s, stack.drop_last(), n);
        let i = stack.last() as int;
        let x = before.surfaces[i];
        let t = x.xdg()->0.specific->Toplevel_0.activation_set(stack.len() == n);
        Told {
            surfaces: before.surfaces.update(i, with_toplevel(x, t.configure_sent())),
            actions: before.actions + t.configure_events(x.xdg()->0.wl),
        }
    }
}

/// Whether surfaces differ in nothing but what was asked of toplevels.
pub open spec fn only_configured(a: Seq<SurfaceV>, b: Seq<SurfaceV>) -> bool {
    &&& same_links(a, b)
    &&& surfaces_wf(b)
    &&& forall|j: int| 0 <= j < a.len() ==> #[trigger] shown_toplevel(b, j) == shown_toplevel(a, j)
}

impl State {
    /// Tells the windows which of them is the active one, and whatever else is asked of them.
    pub fn configure_windows(&mut self, actions: &mut Vec<Action>)
        requires
            state_wf(old(self)@),
        ensures
            ({
                let st = old(self)@;
                let told = windows_told(st.compositor.surfaces, st.focus_stack, st.focus_stack.len() as int);
                &&& final(self)@ == st.with_surfaces(told.surfaces)
                &&& final(actions)@ == old(actions)@ + told.actions
            }),
            state_wf(final(self)@),
            same_links(old(self)@.compositor.surfaces, final(self)@.compositor.surfaces),
    {
        let ghost st = self@;
        let ghost s0 = st.compositor.surfaces;
        let ghost a0 = actions@;
        let n: usize = self.focus_stack.inner().len();
        let mut k: usize = 0;
        proof {
            assert(st.focus_stack.take(0) =~= Seq::<usize>::empty());
            assert(actions@ =~= a0 + windows_told(s0, st.focus_stack.take(0), n as int).actions);
        }
        while k < n
            invariant
                k <= n,
                n == st.focus_stack.len(),
                s0 == st.compositor.surfaces,
                state_wf(st),
                only_configured(s0, self@.compositor.surfaces),
                ({
                    let told = windows_told(s0, st.focus_stack.take(k as int), n as int);
                    &&& self@ == st.with_surfaces(told.surfaces)
                    &&& actions@ == a0 + told.actions
                }),
            decreases n - k,
        {
            let ghost told = windows_told(s0, st.focus_stack.take(k as int), n as int);
            let ghost s = self@.compositor.surfaces;
            let i: usize = self.focus_stack.inner()[k];
            proof {
                assert(st.focus_stack.take(k + 1).drop_last() =~= st.focus_stack.take(k as int));
                assert(st.focus_stack.take(k + 1).last() == i);
                assert(shown_toplevel(s0, st.focus_stack[k as int] as int));
                assert(shown_toplevel(s, i as int));
                assert(surface_wf(s, i as int));
                assert(self.compositor.surfaces.list@[i as int]@ == s[i as int]);
            }
            if let SurfaceRole::Xdg(xdg) = &mut self.compositor.surfaces.list[i].role {
                let wl = xdg.wl;
                if let SpecificRole::Toplevel(t) = &mut xdg.specific {
                    t.set_activated(k == n - 1);
                    t.apply_pending_configure(wl, actions);
                }
            }
            proof {
                let after = windows_told(s0, st.focus_stack.take(k + 1), n as int);
                assert(self@.compositor.surfaces =~= after.surfaces);
                assert(actions@ =~= a0 + after.actions);
                lemma_window_changes(s, i as int, after.surfaces[i as int].xdg()->0);
                assert forall|j: int| 0 <= j < s0.len() implies #[trigger] shown_toplevel(after.surfaces, j)
                    == shown_toplevel(s0, j) by {
                    assert(shown_toplevel(s, j) == shown_toplevel(s0, j));
                }
                assert forall|j: int| 0 <= j < s0.len() implies up(s0, j) == #[trigger] up(after.surfaces, j) by {
                    assert(up(s0, j) == up(s, j));
                    assert(up(s, j) == up(after.surfaces, j));
                }
            }
            k = k + 1;
        }
        proof {
            assert(st.focus_stack.take(k as int) =~= st.focus_stack);
            lemma_focus_kept(st.focus_stack, s0, self@.compositor.surfaces);
        }
    }
}

/// A second round tells a window nothing new: everything that is asked of it is asked once. This holds
/// unless a change of activation was already waiting.
pub proof fn law_configure_once(t: XdgToplevelRole, active: bool, xdg_surface: Handle)
    requires
        t.pending_configure matches Some(c) ==> c.activated == t.cur_configure.activated,
    ensures
        ({
            let u = t.activation_set(active).configure_sent();
            &&& u.cur_configure.activated == active
            &&& u.activation_set(active) == u
            &&& u.configure_events(xdg_surface) == Seq::<Action>::empty()
        }),
{
}

/// What holds of all surfaces but those of one client.
pub open spec fn others_wf(s: Seq<SurfaceV>, client: ClientId) -> bool {
    &&& forall|j: int| 0 <= j < s.len() && s[j].wl.client != client ==> #[trigger] surface_wf(s, j)
    &&& forall|j: int| 0 <= j < s.len() ==> (#[trigger] s[j]).wl.key == j
    &&& forall|j: int| 0 <= j < s.len() ==> #[trigger] stays_with_client(s, j)
}

/// Whether a surface hangs under a surface of the same client, if under any.
pub open spec fn stays_with_client(s: Seq<SurfaceV>, j: int) -> bool {
    up(s, j) matches Some(p) ==> 0 <= p < s.len() && s[p].wl.client == s[j].wl.client
}

/// Whatever a client does to its own surfaces, what holds of the surfaces of the other clients still
/// does.
pub proof fn law_clients_are_apart(s: Seq<SurfaceV>, t: Seq<SurfaceV>, client: ClientId)
    requires
        surfaces_wf(s),
        others_unchanged(s, t, client),
        same_links(s, t),
        forall|j: int| 0 <= j < s.len() ==> (#[trigger] t[j]).wl == s[j].wl,
    ensures
        others_wf(t, client),
{
    assert forall|j: int| 0 <= j < t.len() implies #[trigger] stays_with_client(t, j) by {
        assert(surface_wf(s, j));
        assert(up(s, j) == up(t, j));
        assert(t[j].wl == s[j].wl);
        if let Some(p) = up(s, j) {
            assert(t[p].wl == s[p].wl);
        }
    }
    assert forall|j: int| 0 <= j < t.len() implies (#[trigger] t[j]).wl.key == j by {
        assert(surface_wf(s, j));
    }
    assert forall|k: int, c: int|
        0 <= k < s.len() && s[k].wl.client != client && is_child(s, k, c) implies is_child(t, k, c) by {
        assert(surface_wf(s, c));
        assert(t[c] == s[c]);
    }
    assert forall|j: int, nodes: Seq<crate::globals::compositor::SubsurfaceNode>|
        0 <= j < s.len() && s[j].wl.client != client && list_wf(s, j, nodes) implies #[trigger] list_wf(t, j, nodes) by {
        assert forall|k: int| 0 <= k < nodes.len() implies is_child(t, j, (#[trigger] nodes[k]).surface as int) by {
            assert(is_child(s, j, nodes[k].surface as int));
        }
    }
    assert forall|j: int| 0 <= j < t.len() && t[j].wl.client != client implies #[trigger] surface_wf(t, j) by {
        assert(surface_wf(s, j));
        assert(s[j].wl == t[j].wl);
        assert(t[j] == s[j]);
        assert(list_wf(t, j, s[j].cur.subsurfaces));
        assert(list_wf(t, j, s[j].pending.subsurfaces));
        match s[j].role {
            SurfaceRoleV::Subsurface(sub) => {
                assert(t[sub.parent as int] == s[sub.parent as int]);
                assert(list_wf(t, j, sub.cached_state.subsurfaces));
            },
            SurfaceRoleV::Xdg(xdg) => {
                if let Some(p) = xdg.popup {
                    assert(surface_wf(s, p as int));
                    assert(t[p as int] == s[p as int]);
                }
                if let SpecificRole::Popup(pop) = xdg.specific {
                    assert(t[pop.parent as int] == s[pop.parent as int]);
                }
            },
            _ => {},
        }
    }
}

impl SurfaceV {
    /// The buffers that are given back when the surface is gone: the one that waits in the cache of a
    /// subsurface, and the one that is shown.
    pub open spec fn release_events(self) -> Seq<Action> {
        let cached = match self.role {
            SurfaceRoleV::Subsurface(sub) => match sub.cached_state.buffer {
                Some(b) => seq![Action::UnlockBuffer { buffer: b.id }],
                None => Seq::empty(),
            },
            _ => Seq::empty(),
        };
        match self.cur.buffer {
            Some(b) => cached.push(Action::UnlockBuffer { buffer: b.id }),
            None => cached,
        }
    }
}

/// The surfaces and what was sent after the first `n` surfaces were cleared of those of a client.
pub open spec fn surfaces_released(s: Seq<SurfaceV>, n: nat, client: ClientId) -> Told
    decreases n,
{
    if n == 0 {
        Told { surfaces: s, actions: Seq::empty() }
    } else {
        let before = surfaces_released(s, (n - 1) as nat, client);
        let i = n - 1;
        if s[i].wl.client == client {
            Told {
                surfaces: before.surfaces.update(i, SurfaceV::fresh(s[i].wl, s[i].version)),
                actions: before.actions + s[i].release_events(),
            }
        } else {
            before
        }
    }
}

/// A surface is cleared if it belongs to the client, and as before if it does not.
pub proof fn lemma_surfaces_released(s: Seq<SurfaceV>, n: nat, client: ClientId)
    requires
        n <= s.len(),
    ensures
        surfaces_released(s, n, client).surfaces.len() == s.len(),
        forall|j: int|
            0 <= j < s.len() ==> #[trigger] surfaces_released(s, n, client).surfaces[j] == if j < n && s[j].wl.client
                == client {
                SurfaceV::fresh(s[j].wl, s[j].version)
            } else {
                s[j]
            },
    decreases n,
{
    if n > 0 {
        lemma_surfaces_released(s, (n - 1) as nat, client);
    }
}

impl Surfaces {
    /// Gives back the buffers of all surfaces of a client and clears the surfaces.
    pub fn release_buffers(&mut self, client: ClientId, actions: &mut Vec<Action>)
        ensures
            ({
                let told = surfaces_released(old(self)@, old(self)@.len(), client);
                &&& final(self)@ == told.surfaces
                &&& final(actions)@ == old(actions)@ + told.actions
            }),
    {
        let ghost s = self@;
        let ghost a0 = actions@;
        let n: usize = self.list.len();
        let mut i: usize = 0;
        assert(actions@ =~= a0 + surfaces_released(s, 0, client).actions);
        while i < n
            invariant
                i <= n,
                n == s.len(),
                ({
                    let told = surfaces_released(s, i as nat, client);
                    &&& self@ == told.surfaces
                    &&& actions@ == a0 + told.actions
                }),
            decreases n - i,
        {
            proof {
                lemma_surfaces_released(s, i as nat, client);
                assert(self@[i as int] == s[i as int]);
                assert(self.list@[i as int]@ == s[i as int]);
            }
            let ghost before = self@;
            let ghost a1 = actions@;
            if self.list[i].wl.client == client {
                if let SurfaceRole::Subsurface(sub) = &self.list[i].role {
                    if let Some(b) = sub.cached_state.buffer {
                        actions.push(Action::UnlockBuffer { buffer: b.id });
                    }
                }
                if let Some(b) = self.list[i].cur.buffer {
                    actions.push(Action::UnlockBuffer { buffer: b.id });
                }
                let wl = self.list[i].wl;
                let version: u32 = self.list[i].version;
                self.list[i] = Surface::new(wl, version);
                proof {
                    assert(actions@ =~= a1 + s[i as int].release_events());
                    assert(self@ =~= before.update(i as int, SurfaceV::fresh(wl, version)));
                    let told = surfaces_released(s, (i + 1) as nat, client);
                    assert(actions@ =~= a0 + told.actions);
                }
            }
            i = i + 1;
        }
    }
}

impl StateV {
    /// The state after a client is gone.
    pub open spec fn client_removed(self, client: ClientId) -> StateV {
        let s = self.compositor.surfaces;
        let drop = self.seat.selection_source() matches Some(h) && h.client == client;
        StateV {
            seat: self.seat.deselected_if(drop).without_objects_of(client),
            focus_stack: removed_client(self.focus_stack, s, client),
            cursor: self.cursor.client_removed(s, client),
            ..self.with_surfaces(surfaces_released(s, s.len(), client).surfaces)
        }
    }

    /// What is sent when a client is gone.
    pub open spec fn client_removed_events(self, client: ClientId) -> Seq<Action> {
        let s = self.compositor.surfaces;
        let drop = self.seat.selection_source() matches Some(h) && h.client == client;
        self.seat.deselected_events(drop) + surfaces_released(s, s.len(), client).actions
    }
}

/// The windows that are left are those of other clients, in the same order.
proof fn lemma_removed_client(stack: Seq<usize>, s: Seq<SurfaceV>, client: ClientId)
    ensures
        forall|j: usize| #[trigger]
            removed_client(stack, s, client).contains(j) <==> stack.contains(j) && s[j as int].wl.client != client,
        stack.no_duplicates() ==> removed_client(stack, s, client).no_duplicates(),
    decreases stack.len(),
{
    let kept = removed_client(stack, s, client);
    if stack.len() > 0 {
        let init = stack.drop_last();
        let last = stack.last();
        let before = removed_client(init, s, client);
        lemma_removed_client(init, s, client);
        assert forall|j: usize| #[trigger] kept.contains(j) <==> stack.contains(j) && s[j as int].wl.client != client by {
            assert(before.contains(j) <==> init.contains(j) && s[j as int].wl.client != client);
            if stack.contains(j) {
                let k = choose|k: int| 0 <= k < stack.len() && stack[k] == j;
                if k < init.len() {
                    assert(init[k] == j);
                }
            }
            if init.contains(j) {
                let k = choose|k: int| 0 <= k < init.len() && init[k] == j;
                assert(stack[k] == j);
            }
            if before.contains(j) {
                let k = choose|k: int| 0 <= k < before.len() && before[k] == j;
                assert(kept[k] == j);
            }
            if last == j {
                assert(stack[stack.len() - 1] == j);
                if s[j as int].wl.client != client {
                    assert(kept[kept.len() - 1] == j);
                }
            }
            if kept.contains(j) && !before.contains(j) {
                let k = choose|k: int| 0 <= k < kept.len() && kept[k] == j;
                if k < before.len() {
                    assert(before[k] == j);
                }
            }
        }
        if stack.no_duplicates() {
            assert(init.no_duplicates());
            assert forall|a: int, b: int| 0 <= a < kept.len() && 0 <= b < kept.len() && a != b implies kept[a]
                != kept[b] by {
                if a < before.len() && b < before.len() {
                    assert(before[a] != before[b]);
                } else if a < before.len() {
                    assert(before.contains(before[a]));
                    let k = choose|k: int| 0 <= k < init.len() && init[k] == before[a];
                    assert(stack[k] != stack[stack.len() - 1]);
                } else {
                    assert(before.contains(before[b]));
                    let k = choose|k: int| 0 <= k < init.len() && init[k] == before[b];
                    assert(stack[k] != stack[stack.len() - 1]);
                }
            }
        }
    }
}

impl State {
    /// Forgets a client: its windows are gone, its buffers are given back, and none of its objects is
    /// told of anything any more.
    pub fn destroy_client(&mut self, client: ClientId, actions: &mut Vec<Action>)
        requires
            client_removable(old(self)@, client),
        ensures
            final(self)@ == old(self)@.client_removed(client),
            final(actions)@ == old(actions)@ + old(self)@.client_removed_events(client),
            state_wf(final(self)@),
            acyclic(old(self)@.compositor.surfaces) ==> acyclic(final(self)@.compositor.surfaces),
    {
        let ghost st = self@;
        let ghost s = st.compositor.surfaces;
        let ghost a0 = actions@;
        self.seat.remove_client(client, actions);
        proof {
            assert forall|k: int| 0 <= k < st.focus_stack.len() implies #[trigger] st.focus_stack[k] < s.len() by {
                assert(shown_toplevel(s, st.focus_stack[k] as int));
            }
        }
        self.focus_stack.remove_client(&self.compositor.surfaces, client);
        self.cursor.remove_client(&self.compositor.surfaces, client);
        self.compositor.surfaces.release_buffers(client, actions);
        proof {
            let t = self@.compositor.surfaces;
            let stack = self@.focus_stack;
            lemma_surfaces_released(s, s.len(), client);
            assert(actions@ =~= a0 + st.client_removed_events(client));
            assert forall|k: int, c: int|
                0 <= k < s.len() && s[k].wl.client != client && is_child(s, k, c) && s[c].wl.client != client implies is_child(
                t,
                k,
                c,
            ) by {
                assert(t[c] == s[c]);
            }
            assert forall|j: int| 0 <= j < t.len() implies #[trigger] surface_wf(t, j) by {
                assert(s[j].wl.key == j);
                assert(t[j] == if s[j].wl.client == client {
                    SurfaceV::fresh(s[j].wl, s[j].version)
                } else {
                    s[j]
                });
                if s[j].wl.client != client {
                    assert(surface_wf(s, j));
                    lemma_kept_after_release(s, t, j, client);
                }
            }
            lemma_removed_client(st.focus_stack, s, client);
            assert forall|k: int| 0 <= k < stack.len() implies shown_toplevel(t, #[trigger] stack[k] as int) by {
                assert(stack.contains(stack[k]));
                let l = choose|l: int| 0 <= l < st.focus_stack.len() && st.focus_stack[l] == stack[k];
                assert(shown_toplevel(s, st.focus_stack[l] as int));
                assert(t[stack[k] as int] == s[stack[k] as int]);
            }
            assert forall|j: int| 0 <= j < t.len() && #[trigger] shown_toplevel(t, j) implies stack.contains(
                j as usize,
            ) by {
                assert(t[j] == s[j]);
                assert(shown_toplevel(s, j));
                assert(st.focus_stack.contains(j as usize));
            }
            if acyclic(s) {
                assert forall|j: int| 0 <= j < s.len() implies #[trigger] up(t, j) == up(s, j) || up(t, j) is None by {
                    assert(t[j] == s[j] || t[j] == SurfaceV::fresh(s[j].wl, s[j].version));
                }
                lemma_unlink_acyclic(s, t);
            }
        }
    }
}

/// The surface of another client is as good as before when the surfaces of a client are cleared.
proof fn lemma_kept_after_release(s: Seq<SurfaceV>, t: Seq<SurfaceV>, j: int, client: ClientId)
    requires
        others_wf(s, client),
        t.len() == s.len(),
        forall|k: int|
            0 <= k < s.len() ==> #[trigger] t[k] == if s[k].wl.client == client {
                SurfaceV::fresh(s[k].wl, s[k].version)
            } else {
                s[k]
            },
        0 <= j < s.len(),
        s[j].wl.client != client,
    ensures
        surface_wf(t, j),
{
    assert(surface_wf(s, j));
    assert(t[j] == s[j]);
    assert forall|nodes: Seq<crate::globals::compositor::SubsurfaceNode>| list_wf(s, j, nodes) implies #[trigger] list_wf(
        t,
        j,
        nodes,
    ) by {
        assert forall|k: int| 0 <= k < nodes.len() implies is_child(t, j, (#[trigger] nodes[k]).surface as int) by {
            let c = nodes[k].surface as int;
            assert(is_child(s, j, c));
            assert(up(s, c) == Some(j));
            assert(stays_with_client(s, c));
            assert(t[c] == s[c]);
        }
    }
    assert(list_wf(t, j, s[j].cur.subsurfaces));
    assert(list_wf(t, j, s[j].pending.subsurfaces));
    match s[j].role {
        SurfaceRoleV::Subsurface(sub) => {
            assert(t[sub.parent as int] == s[sub.parent as int]);
            assert(list_wf(t, j, sub.cached_state.subsurfaces));
        },
        SurfaceRoleV::Xdg(xdg) => {
            if let Some(p) = xdg.popup {
                assert(up(s, p as int) == Some(j));
                assert(stays_with_client(s, p as int));
                assert(t[p as int] == s[p as int]);
            }
            if let SpecificRole::Popup(pop) = xdg.specific {
                assert(t[pop.parent as int] == s[pop.parent as int]);
            }
        },
        _ => {},
    }
}

/// The highest number that is tried for the name of the socket, and one.
pub const SOCKET_NAMES: usize = 10;

/// The name of a socket.
pub open spec fn socket_name_spec(num: usize) -> Seq<char> {
    match num {
        0 => "wayland-0"@,
        1 => "wayland-1"@,
        2 => "wayland-2"@,
        3 => "wayland-3"@,
        4 => "wayland-4"@,
        5 => "wayland-5"@,
        6 => "wayland-6"@,
        7 => "wayland-7"@,
        8 => "wayland-8"@,
        _ => "wayland-9"@,
    }
}

/// The name of a socket.
pub fn socket_name(num: usize) -> (r: &'static str)
    requires
        num < SOCKET_NAMES,
    ensures
        r@ == socket_name_spec(num),
{
    match num {
        0 => "wayland-0",
        1 => "wayland-1",
        2 => "wayland-2",
        3 => "wayland-3",
        4 => "wayland-4",
        5 => "wayland-5",
        6 => "wayland-6",
        7 => "wayland-7",
        8 => "wayland-8",
        _ => "wayland-9",
    }
}

/// The first name for a socket that is not taken.
pub fn select_socket_name(taken: &Vec<bool>) -> (r: Option<&'static str>)
    requires
        taken@.len() == SOCKET_NAMES,
    ensures
        match r {
            Some(name) => exists|k: int|
                0 <= k < SOCKET_NAMES && !(#[trigger] taken@[k]) && name@ == socket_name_spec(k as usize) && forall|j: int|
                    0 <= j < k ==> #[trigger] taken@[j],
            None => forall|j: int| 0 <= j < SOCKET_NAMES ==> #[trigger] taken@[j],
        },
{
    let mut num: usize = 0;
    while num < SOCKET_NAMES
        invariant
            num <= SOCKET_NAMES,
            taken@.len() == SOCKET_NAMES,
            forall|j: int| 0 <= j < num ==> #[trigger] taken@[j],
        decreases SOCKET_NAMES - num,
    {
        if !taken[num] {
            return Some(socket_name(num));
        }
        num = num + 1;
    }
    None
}

} // verus!
