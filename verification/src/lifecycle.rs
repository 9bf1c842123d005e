//! How windows come and go, and what their clients are asked.
use vstd::prelude::*;
use crate::client::ClientId;
use crate::cursor::Kind;
use crate::error::Error;
use crate::focus_stack::{law_removed, law_removed_client};
use crate::globals::compositor::{CommittedBuffer, CommittedMaskBit, SurfaceStateV, SurfaceV};
use crate::globals::compositor_requests::{viewport_after, SurfaceRequest, ViewportRequest};
use crate::globals::xdg_shell::popup::XdgPopupRole;
use crate::globals::xdg_shell::requests::{toplevel_after, ToplevelStateRequest};
use crate::globals::xdg_shell::toplevel::{ToplevelConfigure, XdgToplevelRole};
use crate::protocol::{Action, Fixed, Handle, ResizeEdge};
use crate::seat::delivery::{law_leaving_is_told, of_client, pointer_leave_said, pointer_leaves};
use crate::seat::pointer::PtrStateV;
use crate::server::{lemma_surfaces_released, windows_told};
use crate::state::{focus_wf, shown_toplevel, StateV};
use crate::windows::{PopupRequest, ToplevelRequest};

verus! {

/// The toplevel that surface `i` is.
pub open spec fn toplevel_of(s: Seq<SurfaceV>, i: int) -> XdgToplevelRole {
    s[i].xdg()->0.specific->Toplevel_0
}

/// Whether nothing changed of any surface but `i`.
pub open spec fn others_same(a: Seq<SurfaceV>, b: Seq<SurfaceV>, i: int) -> bool {
    &&& a.len() == b.len()
    &&& forall|j: int| 0 <= j < a.len() && j != i ==> #[trigger] b[j] == a[j]
}

/// The first commit on a toplevel has no buffer. It is answered with a request to choose a size, under a serial that
/// the client has to acknowledge. A buffer at that time is an error.
pub proof fn law_first_commit_is_answered(st: StateV, i: int)
    requires
        0 <= i < st.compositor.surfaces.len(),
        st.compositor.surfaces[i].is_toplevel(),
        !st.compositor.surfaces[i].configured,
    ensures
        ({
            let o = st.toplevel_committed(i);
            let x = st.compositor.surfaces[i];
            let y = o.state.compositor.surfaces[i];
            let t = toplevel_of(st.compositor.surfaces, i);
            let u = toplevel_of(o.state.compositor.surfaces, i);
            &&& x.cur.buffer is Some ==> o.result == Err::<(), Error>(Error::UnmappedSurfaceBuffer) && o.actions.len()
                == 0 && !y.configured
            &&& x.cur.buffer is None ==> {
                &&& o.result is Ok
                &&& y.configured && y.mapped == x.mapped
                &&& u.cur_configure.serial == t.cur_configure.serial.wrapping_add(1)
                &&& u.pending_configure is None
                &&& o.actions.len() == 2
                &&& o.actions[0] == (Action::ToplevelConfigure { toplevel: t.wl, width: 0, height: 0, activated: false })
                &&& o.actions[1] == (Action::XdgSurfaceConfigure {
                    xdg_surface: x.xdg()->0.wl,
                    serial: u.cur_configure.serial,
                })
            }
            &&& o.state.focus_stack == st.focus_stack
            &&& o.state.seat == st.seat
            &&& others_same(st.compositor.surfaces, o.state.compositor.surfaces, i)
        }),
{
}

/// A window is shown with the first buffer after the client has acknowledged what it was asked. It comes to the top
/// of the stack, fifty pixels below and to the right of the window that was there, or twenty pixels from the corner
/// of the screen if there was none. To commit before acknowledging is an error.
pub proof fn law_new_window_comes_to_the_top(st: StateV, i: int)
    requires
        0 <= i < st.compositor.surfaces.len() <= usize::MAX,
        st.compositor.surfaces[i].is_toplevel(),
        st.compositor.surfaces[i].configured,
        !st.compositor.surfaces[i].mapped,
        focus_wf(st.focus_stack, st.compositor.surfaces),
    ensures
        ({
            let o = st.toplevel_committed(i);
            let s = st.compositor.surfaces;
            let x = s[i];
            let y = o.state.compositor.surfaces[i];
            let t = toplevel_of(s, i);
            let u = toplevel_of(o.state.compositor.surfaces, i);
            let n = st.focus_stack.len();
            let acked = x.xdg()->0.last_acked_configure == Some(t.cur_configure.serial);
            &&& !acked ==> o.result == Err::<(), Error>(Error::InitialConfigureNotAcked)
            &&& acked ==> o.result is Ok
            &&& y.mapped == (acked && x.cur.buffer is Some)
            &&& y.mapped ==> {
                &&& o.state.focus_stack.len() == n + 1
                &&& o.state.focus_stack[n as int] == i
                &&& forall|k: int| 0 <= k < n ==> #[trigger] o.state.focus_stack[k] == st.focus_stack[k]
                &&& n == 0 ==> u.x == 20 && u.y == 20
                &&& n > 0 ==> {
                    let top = toplevel_of(s, st.focus_stack[n - 1] as int);
                    u.x == top.x.wrapping_add(50) && u.y == top.y.wrapping_add(50)
                }
            }
            &&& !y.mapped ==> o.state.focus_stack == st.focus_stack
            &&& o.actions.len() == 0
            &&& o.state.seat == st.seat
            &&& others_same(s, o.state.compositor.surfaces, i)
        }),
{
    let s = st.compositor.surfaces;
    let n = st.focus_stack.len();
    if n > 0 {
        assert(shown_toplevel(s, st.focus_stack[n - 1] as int));
        assert(!shown_toplevel(s, i));
    }
}

/// A window that is shown stays in its place of the stack as long as it is committed with a buffer, and is gone
/// from it when it is committed without one.
pub proof fn law_window_without_a_buffer_is_gone(st: StateV, i: int)
    requires
        0 <= i < st.compositor.surfaces.len() <= usize::MAX,
        st.compositor.surfaces[i].is_toplevel(),
        st.compositor.surfaces[i].configured,
        st.compositor.surfaces[i].mapped,
    ensures
        ({
            let o = st.toplevel_committed(i);
            let x = st.compositor.surfaces[i];
            let y = o.state.compositor.surfaces[i];
            &&& o.result is Ok
            &&& y.mapped == x.cur.buffer is Some
            &&& y.configured == x.cur.buffer is Some
            &&& o.state.focus_stack == if x.cur.buffer is Some {
                st.focus_stack
            } else {
                st.focus_stack.filter(|j: usize| j != i as usize)
            }
            &&& x.cur.buffer is Some ==> o.state.seat == st.seat && o.actions.len() == 0
            &&& x.cur.buffer is None ==> o.state.seat.keyboard.focused_surface != Some(x.wl)
            &&& others_same(st.compositor.surfaces, o.state.compositor.surfaces, i)
        }),
{
    law_removed(st.focus_stack, i as usize);
}

/// A surface that is no longer shown is out of the stack, where the others stay in their order. If it had the
/// keyboard focus, nobody has it and its client is told; the same goes for the pointer, which also lets go of it.
pub proof fn law_unmapped_window_is_gone(st: StateV, i: int)
    requires
        0 <= i < st.compositor.surfaces.len() <= usize::MAX,
        st.compositor.surfaces[i].mapped,
        st.compositor.surfaces[i].is_toplevel(),
    ensures
        ({
            let after = st.unmapped(i);
            let x = st.compositor.surfaces[i];
            let y = after.compositor.surfaces[i];
            let told = st.unmap_events(i);
            let p = st.seat.pointer.state;
            &&& !y.mapped && !y.configured
            &&& y == (SurfaceV { mapped: false, configured: false, ..x })
            &&& after.focus_stack == st.focus_stack.filter(|j: usize| j != i as usize)
            &&& after.seat.keyboard.focused_surface == if st.seat.keyboard.focused_surface == Some(x.wl) {
                None
            } else {
                st.seat.keyboard.focused_surface
            }
            &&& match p {
                PtrStateV::Idle => after.seat.pointer.state is Idle,
                PtrStateV::Entered { surface, .. } => if surface == x.wl {
                    after.seat.pointer.state is Idle
                } else {
                    after.seat.pointer.state == p
                },
                PtrStateV::Moving { surface, .. } => if surface == x.wl {
                    after.seat.pointer.state is Idle
                } else {
                    after.seat.pointer.state == p
                },
                PtrStateV::Resizing { surface, .. } => if surface == x.wl {
                    after.seat.pointer.state is Idle
                } else {
                    after.seat.pointer.state == p
                },
            }
            &&& others_same(st.compositor.surfaces, after.compositor.surfaces, i)
            &&& told == st.seat.surface_gone_events(x.wl)
        }),
{
    law_removed(st.focus_stack, i as usize);
}

/// What a toplevel is asked when all windows are told: what waits, or what it was asked last under the next serial,
/// but to be active or not as it has to be. It is asked nothing if nothing waits and it is as it has to be.
pub open spec fn asked_now(t: XdgToplevelRole, active: bool) -> Option<ToplevelConfigure> {
    match t.pending_configure {
        Some(c) => Some(ToplevelConfigure { activated: active, ..c }),
        None => if t.cur_configure.activated == active {
            None
        } else {
            Some(
                ToplevelConfigure {
                    serial: t.cur_configure.serial.wrapping_add(1),
                    activated: active,
                    ..t.cur_configure
                },
            )
        },
    }
}

/// What the client of the window in place `k` of a stack is sent when all windows are told.
pub open spec fn window_told(s: Seq<SurfaceV>, stack: Seq<usize>, k: int) -> Seq<Action> {
    let i = stack[k] as int;
    let t = toplevel_of(s, i);
    match asked_now(t, k == stack.len() - 1) {
        None => Seq::empty(),
        Some(c) => seq![
            Action::ToplevelConfigure {
                toplevel: t.wl,
                width: c.width as i32,
                height: c.heinght as i32,
                activated: c.activated,
            },
            Action::XdgSurfaceConfigure { xdg_surface: s[i].xdg()->0.wl, serial: c.serial },
        ],
    }
}

/// Whether what waits for toplevels agrees with what they were asked last on which is the active one.
pub open spec fn activation_agrees(s: Seq<SurfaceV>, stack: Seq<usize>) -> bool {
    forall|k: int|
        0 <= k < stack.len() ==> (toplevel_of(s, #[trigger] stack[k] as int).pending_configure matches Some(c)
            ==> c.activated == toplevel_of(s, stack[k] as int).cur_configure.activated)
}

/// When all windows are told, the one on top is asked to be active and all others not to be. Each is sent what it is
/// asked in one go, from the lowest window up, and nothing waits for any of them any more.
pub proof fn law_top_window_is_the_active_one(s: Seq<SurfaceV>, stack: Seq<usize>)
    requires
        focus_wf(stack, s),
        activation_agrees(s, stack),
    ensures
        ({
            let told = windows_told(s, stack, stack.len() as int);
            &&& told.actions == Seq::new(stack.len(), |k: int| window_told(s, stack, k)).flatten()
            &&& told.surfaces.len() == s.len()
            &&& forall|k: int|
                0 <= k < stack.len() ==> {
                    let t = toplevel_of(s, #[trigger] stack[k] as int);
                    let u = toplevel_of(told.surfaces, stack[k] as int);
                    &&& u.cur_configure.activated == (k == stack.len() - 1)
                    &&& u.pending_configure is None
                    &&& asked_now(t, k == stack.len() - 1) matches Some(c) ==> u.cur_configure == c
                    &&& asked_now(t, k == stack.len() - 1) is None ==> u.cur_configure == t.cur_configure
                    &&& u.x == t.x && u.y == t.y && u.resizing == t.resizing
                }
            &&& forall|j: int| 0 <= j < s.len() && !stack.contains(j as usize) ==> #[trigger] told.surfaces[j] == s[j]
        }),
{
    let n = stack.len() as int;
    let all = Seq::new(stack.len(), |k: int| window_told(s, stack, k));
    assert(stack.take(n) =~= stack);
    assert(all.take(n) =~= all);
    lemma_windows_told(s, stack, n);
    all.lemma_flatten_and_flatten_alt_are_equivalent();
    let told = windows_told(s, stack, n);
    assert forall|k: int| 0 <= k < n implies {
        let t = toplevel_of(s, #[trigger] stack[k] as int);
        let u = toplevel_of(told.surfaces, stack[k] as int);
        &&& u.cur_configure.activated == (k == stack.len() - 1)
        &&& u.pending_configure is None
        &&& asked_now(t, k == stack.len() - 1) matches Some(c) ==> u.cur_configure == c
        &&& asked_now(t, k == stack.len() - 1) is None ==> u.cur_configure == t.cur_configure
        &&& u.x == t.x && u.y == t.y && u.resizing == t.resizing
    } by {
        assert(is_told(s, told.surfaces, stack, k));
    }
    assert forall|j: int| 0 <= j < s.len() && !stack.contains(j as usize) implies #[trigger] told.surfaces[j] == s[j] by {
        assert forall|k: int| 0 <= k < n implies stack[k] != j by {
            assert(stack.contains(stack[k]));
        }
        assert(kept_back(s, told.surfaces, stack, n, j));
    }
}

spec fn is_told(s: Seq<SurfaceV>, after: Seq<SurfaceV>, stack: Seq<usize>, k: int) -> bool {
    let t = toplevel_of(s, stack[k] as int);
    let u = toplevel_of(after, stack[k] as int);
    &&& u.cur_configure.activated == (k == stack.len() - 1)
    &&& u.pending_configure is None
    &&& asked_now(t, k == stack.len() - 1) matches Some(c) ==> u.cur_configure == c
    &&& asked_now(t, k == stack.len() - 1) is None ==> u.cur_configure == t.cur_configure
    &&& u.x == t.x && u.y == t.y && u.resizing == t.resizing
}

spec fn kept_back(s: Seq<SurfaceV>, after: Seq<SurfaceV>, stack: Seq<usize>, k: int, j: int) -> bool {
    (forall|l: int| 0 <= l < k ==> #[trigger] stack[l] != j) ==> after[j] == s[j]
}

proof fn lemma_windows_told(s: Seq<SurfaceV>, stack: Seq<usize>, k: int)
    requires
        focus_wf(stack, s),
        activation_agrees(s, stack),
        0 <= k <= stack.len(),
    ensures
        ({
            let told = windows_told(s, stack.take(k), stack.len() as int);
            &&& told.actions == Seq::new(stack.len(), |l: int| window_told(s, stack, l)).take(k).flatten_alt()
            &&& told.surfaces.len() == s.len()
            &&& forall|l: int| 0 <= l < k ==> #[trigger] is_told(s, told.surfaces, stack, l)
            &&& forall|j: int| 0 <= j < s.len() ==> #[trigger] kept_back(s, told.surfaces, stack, k, j)
        }),
    decreases k,
{
    let all = Seq::new(stack.len(), |l: int| window_told(s, stack, l));
    let n = stack.len() as int;
    if k > 0 {
        lemma_windows_told(s, stack, k - 1);
        let before = windows_told(s, stack.take(k - 1), n);
        let after = windows_told(s, stack.take(k), n);
        let i = stack[k - 1] as int;
        assert(stack.take(k).drop_last() =~= stack.take(k - 1));
        assert(stack.take(k).last() == stack[k - 1]);
        assert(all.take(k).drop_last() =~= all.take(k - 1));
        assert(all.take(k).last() == window_told(s, stack, k - 1));
        assert(shown_toplevel(s, stack[k - 1] as int));
        assert(kept_back(s, before.surfaces, stack, k - 1, i));
        assert(before.surfaces[i] == s[i]);
        let t = toplevel_of(s, i);
        assert(t.pending_configure matches Some(c) ==> c.activated == t.cur_configure.activated);
        assert(t.activation_set(k == n).configure_events(s[i].xdg()->0.wl) =~= window_told(s, stack, k - 1));
        assert forall|l: int| 0 <= l < k implies #[trigger] is_told(s, after.surfaces, stack, l) by {
            if l < k - 1 {
                assert(is_told(s, before.surfaces, stack, l));
                assert(stack[l] != stack[k - 1]);
            }
        }
        assert forall|j: int| 0 <= j < s.len() implies #[trigger] kept_back(s, after.surfaces, stack, k, j) by {
            assert(kept_back(s, before.surfaces, stack, k - 1, j));
            if forall|l: int| 0 <= l < k ==> #[trigger] stack[l] != j {
                assert(stack[k - 1] != j);
            }
        }
    } else {
        assert(stack.take(0) =~= Seq::empty());
        assert(all.take(0) =~= Seq::empty());
    }
}

/// What a client sets on a surface is what the surface has once the state was committed, and nothing else is
/// different from what it had been without the request. Callbacks add up in the order of the requests.
pub proof fn law_what_is_set_is_committed(
    x: SurfaceV,
    request: SurfaceRequest,
    regions: Seq<Option<Set<(int, int)>>>,
)
    requires
        x.after_request(request, regions) is Ok,
        x.pending.mask.contains(CommittedMaskBit::FrameCb) || x.pending.frame_cbs.len() == 0,
    ensures
        ({
            let with = x.after_request(request, regions)->Ok_0.pending_to_cur().cur;
            let without = x.pending_to_cur().cur;
            match request {
                SurfaceRequest::Attach { .. } => without == (SurfaceStateV {
                    mask: without.mask,
                    buffer: without.buffer,
                    ..with
                }),
                SurfaceRequest::Damage | SurfaceRequest::DamageBuffer | SurfaceRequest::Offset { .. } => with == without,
                SurfaceRequest::Frame(cb) => {
                    &&& with.frame_cbs == without.frame_cbs.push(cb)
                    &&& without == (SurfaceStateV { mask: without.mask, frame_cbs: without.frame_cbs, ..with })
                },
                SurfaceRequest::SetOpaqueRegion(region) => {
                    &&& with.opaque_region == match region {
                        Some(k) => regions[k as int],
                        None => None,
                    }
                    &&& without == (SurfaceStateV { mask: without.mask, opaque_region: without.opaque_region, ..with })
                },
                SurfaceRequest::SetInputRegion(region) => {
                    &&& with.input_region == match region {
                        Some(k) => regions[k as int],
                        None => None,
                    }
                    &&& without == (SurfaceStateV { mask: without.mask, input_region: without.input_region, ..with })
                },
                SurfaceRequest::SetBufferTransform(transform) => {
                    &&& with.transform == Some(transform)
                    &&& without == (SurfaceStateV { mask: without.mask, transform: without.transform, ..with })
                },
                SurfaceRequest::SetBufferScale(scale) => {
                    &&& with.scale == Some(scale)
                    &&& without == (SurfaceStateV { mask: without.mask, scale: without.scale, ..with })
                },
            }
        }),
{
    if let SurfaceRequest::Frame(cb) = request {
        let with = x.after_request(request, regions)->Ok_0.pending_to_cur().cur;
        let without = x.pending_to_cur().cur;
        assert(with.frame_cbs =~= without.frame_cbs.push(cb));
    }
}

/// The buffer that the renderer has for what was attached is the one that is shown after a commit, and the one that
/// was shown before is given back. Without an attach, the buffer stays.
pub proof fn law_attached_buffer_is_committed(
    x: SurfaceV,
    attached: Option<Handle>,
    regions: Seq<Option<Set<(int, int)>>>,
    buffer: Option<CommittedBuffer>,
)
    ensures
        ({
            let request = SurfaceRequest::Attach { buffer: attached, x: 0, y: 0 };
            let y = x.after_request(request, regions)->Ok_0;
            let begun = y.with_commit_buffer(buffer);
            &&& x.after_request(request, regions) is Ok
            &&& y.pending_buffer == attached
            &&& begun.pending_to_cur().cur.buffer == buffer
            &&& begun.pending_buffer is None
            &&& begun.cur.unlocked_by(begun.pending) == match x.cur.buffer {
                Some(b) => seq![Action::UnlockBuffer { buffer: b.id }],
                None => Seq::empty(),
            }
            &&& !x.pending.mask.contains(CommittedMaskBit::Buffer) ==> x.with_commit_buffer(
                buffer,
            ).pending_to_cur().cur.buffer == x.cur.buffer && x.cur.unlocked_by(x.pending).len() == 0
        }),
{
}

/// What a client sets for the viewport of a surface is what the surface has once the state was committed: a size and
/// a part of the buffer that are not empty, or none. Anything else is refused.
pub proof fn law_viewport_is_committed(x: SurfaceV, left: Fixed, top: Fixed, w: Fixed, h: Fixed, width: i32, height: i32)
    ensures
        ({
            let (y, set) = viewport_after(x, ViewportRequest::SetDestination { width, height });
            let (z, cut) = viewport_after(x, ViewportRequest::SetSource { x: left, y: top, width: w, height: h });
            &&& set is Ok <==> (width > 0 && height > 0) || (width == -1 && height == -1)
            &&& set is Ok ==> y.pending_to_cur().cur.viewport_dst == if width > 0 {
                Some((width as u32, height as u32))
            } else {
                None
            }
            &&& cut is Ok <==> (left.0 >= 0 && top.0 >= 0 && w.0 > 0 && h.0 > 0) || (left.0 == -256 && top.0 == -256
                && w.0 == -256 && h.0 == -256)
            &&& cut is Ok ==> z.pending_to_cur().cur.viewport_src == if w.0 > 0 {
                Some((left, top, w, h))
            } else {
                None
            }
        }),
{
}

/// The limits and the names that a client gives a toplevel are in effect once it was committed, and limits that are
/// negative are refused.
pub proof fn law_toplevel_is_as_described(t: XdgToplevelRole, width: i32, height: i32, text: Vec<u8>)
    ensures
        ({
            let max = toplevel_after(t, ToplevelStateRequest::SetMaxSize { width, height });
            let min = toplevel_after(t, ToplevelStateRequest::SetMinSize { width, height });
            &&& max is Ok <==> width >= 0 && height >= 0
            &&& min is Ok <==> width >= 0 && height >= 0
            &&& max matches Ok(u) ==> u.state_committed().cur.max_size == Some((width as u32, height as u32))
                && u.state_committed().cur.min_size == t.state_committed().cur.min_size
            &&& min matches Ok(u) ==> u.state_committed().cur.min_size == Some((width as u32, height as u32))
                && u.state_committed().cur.max_size == t.state_committed().cur.max_size
            &&& toplevel_after(t, ToplevelStateRequest::SetTitle(text)) matches Ok(u)
                && u.state_committed().cur.title == Some(text) && u.state_committed().cur.app_id
                == t.state_committed().cur.app_id
            &&& toplevel_after(t, ToplevelStateRequest::SetAppId(text)) matches Ok(u)
                && u.state_committed().cur.app_id == Some(text) && u.state_committed().cur.title
                == t.state_committed().cur.title
        }),
{
}

/// A client can have its window moved or resized by the pointer, from where both are. The surface under the pointer
/// is left for that.
pub proof fn law_client_starts_a_drag(st: StateV, i: int, edge: ResizeEdge)
    requires
        0 <= i < st.compositor.surfaces.len(),
        st.compositor.surfaces[i].is_toplevel(),
        st.compositor.surfaces[i].xdg()->0.effective_window_geometry is Some,
    ensures
        ({
            let x = st.compositor.surfaces[i];
            let t = toplevel_of(st.compositor.surfaces, i);
            let g = x.xdg()->0.effective_window_geometry->0;
            let p = st.seat.pointer;
            let m = st.toplevel_request(i, ToplevelRequest::Move);
            let r = st.toplevel_request(i, ToplevelRequest::Resize(edge));
            let left = if p.state is Entered {
                of_client(st.seat.clients.pointers, p.state->Entered_surface.client).map_values(
                    pointer_leave_said(p.state->Entered_surface),
                )
            } else {
                Seq::empty()
            };
            &&& m.result is Ok && r.result is Ok
            &&& m.state.seat.pointer.state == (PtrStateV::Moving {
                surface: x.wl,
                toplevel: t.wl,
                ptr_start_x: p.x,
                ptr_start_y: p.y,
                toplevel_start_x: t.x,
                toplevel_start_y: t.y,
            })
            &&& r.state.seat.pointer.state == (PtrStateV::Resizing {
                surface: x.wl,
                toplevel: t.wl,
                edge,
                ptr_start_x: p.x,
                ptr_start_y: p.y,
                toplevel_start_width: g.width,
                toplevel_start_height: g.height,
            })
            &&& m.actions.filter(pointer_leaves()) == left
            &&& r.actions.filter(pointer_leaves()) == left
            &&& m.state.compositor == st.compositor && r.state.compositor == st.compositor
            &&& m.state.focus_stack == st.focus_stack && r.state.focus_stack == st.focus_stack
        }),
{
    law_leaving_is_told(st.seat.pointer.state, st.seat.clients.pointers);
}

/// The popup that surface `i` is.
pub open spec fn popup_role(s: Seq<SurfaceV>, i: int) -> XdgPopupRole {
    s[i].xdg()->0.specific->Popup_0
}

/// The first commit on a popup has no buffer and is answered with its place and its size. With the first buffer after
/// the client has acknowledged that, the popup is shown in front of its parent, on top of all popups.
pub proof fn law_popup_is_shown(st: StateV, i: int)
    requires
        0 <= i < st.compositor.surfaces.len() <= usize::MAX,
        st.compositor.surfaces[i].is_popup(),
        0 <= popup_role(st.compositor.surfaces, i).parent < st.compositor.surfaces.len(),
        popup_role(st.compositor.surfaces, i).parent != i,
        st.compositor.surfaces[popup_role(st.compositor.surfaces, i).parent as int].role is Xdg,
        !st.compositor.surfaces[i].mapped,
    ensures
        ({
            let o = st.popup_committed(i);
            let s = st.compositor.surfaces;
            let x = s[i];
            let y = o.state.compositor.surfaces[i];
            let p = popup_role(s, i);
            let q = popup_role(o.state.compositor.surfaces, i);
            let parent = o.state.compositor.surfaces[p.parent as int];
            let acked = x.xdg()->0.last_acked_configure == Some(p.last_serial);
            &&& !x.configured && x.cur.buffer is Some ==> o.result == Err::<(), Error>(Error::UnmappedSurfaceBuffer)
            &&& !x.configured && x.cur.buffer is None ==> {
                &&& o.result is Ok
                &&& y.configured && !y.mapped
                &&& (q.x, q.y) == p.positioner.position()
                &&& q.last_serial == p.next_configure_serial
                &&& q.next_configure_serial == p.next_configure_serial.wrapping_add(1)
                &&& o.actions.len() == 2
                &&& o.actions[0] == (Action::PopupConfigure {
                    popup: p.wl,
                    x: q.x,
                    y: q.y,
                    width: p.positioner.size.0 as i32,
                    height: p.positioner.size.1 as i32,
                })
                &&& o.actions[1] == (Action::XdgSurfaceConfigure { xdg_surface: x.xdg()->0.wl, serial: q.last_serial })
            }
            &&& x.configured && x.cur.buffer is None ==> o.result == Err::<(), Error>(Error::NoInitialBuffer)
            &&& x.configured && x.cur.buffer is Some && !acked ==> o.result == Err::<(), Error>(
                Error::InitialConfigureNotAcked,
            )
            &&& x.configured && x.cur.buffer is Some && acked ==> {
                &&& o.result is Ok
                &&& y.mapped
                &&& parent.xdg()->0.popup == Some(i as usize)
                &&& parent.xdg()->0.specific == s[p.parent as int].xdg()->0.specific
                &&& o.state.popup_stack == st.popup_stack.push(p.wl)
                &&& o.actions.len() == 0
            }
            &&& !y.mapped ==> o.state.popup_stack == st.popup_stack
            &&& o.state.focus_stack == st.focus_stack
            &&& o.state.seat == st.seat
            &&& forall|j: int|
                0 <= j < s.len() && j != i && j != p.parent ==> #[trigger] o.state.compositor.surfaces[j] == s[j]
        }),
{
}

/// Only the popup on top may be taken down. After that its parent has no popup, and the other popups are as before.
pub proof fn law_popup_is_taken_down(st: StateV, i: int)
    requires
        0 <= i < st.compositor.surfaces.len() <= usize::MAX,
        st.compositor.surfaces[i].is_popup(),
        0 <= popup_role(st.compositor.surfaces, i).parent < st.compositor.surfaces.len(),
        popup_role(st.compositor.surfaces, i).parent != i,
        st.compositor.surfaces[popup_role(st.compositor.surfaces, i).parent as int].role is Xdg,
    ensures
        ({
            let o = st.popup_request(i, PopupRequest::Destroy);
            let s = st.compositor.surfaces;
            let p = popup_role(s, i);
            let n = st.popup_stack.len();
            let on_top = n > 0 && st.popup_stack[n - 1] == p.wl;
            &&& on_top ==> o.result is Ok && o.state.popup_stack.push(p.wl) == st.popup_stack
            &&& !on_top ==> o.result == Err::<(), Error>(Error::PopupNotTop) && o.state.popup_stack == st.popup_stack
            &&& !o.state.compositor.surfaces[i].mapped
            &&& o.state.compositor.surfaces[i].xdg()->0.specific is NoRole
            &&& o.state.compositor.surfaces[p.parent as int].xdg()->0.popup is None
            &&& o.state.focus_stack == st.focus_stack
        }),
{
    let n = st.popup_stack.len();
    if n > 0 {
        assert(st.popup_stack.drop_last().push(st.popup_stack[n - 1]) =~= st.popup_stack);
    }
}

/// A popup that grabs the keyboard has the focus.
pub proof fn law_popup_grabs_the_keyboard(st: StateV, i: int)
    requires
        0 <= i < st.compositor.surfaces.len(),
        st.compositor.surfaces[i].is_popup(),
    ensures
        ({
            let o = st.popup_request(i, PopupRequest::Grab);
            &&& o.result is Ok
            &&& o.state.seat.keyboard.focused_surface == Some(st.compositor.surfaces[i].wl)
            &&& popup_role(o.state.compositor.surfaces, i).grab
            &&& o.state.focus_stack == st.focus_stack
            &&& o.state.popup_stack == st.popup_stack
        }),
{
}

/// A client can have a surface shown at the pointer that has no other use, with a given point of it at the pointer.
pub proof fn law_cursor_surface(st: StateV, i: usize, hx: i32, hy: i32)
    requires
        i < st.compositor.surfaces.len(),
    ensures
        ({
            let o = st.cursor_set(Some(i), hx, hy);
            let x = st.compositor.surfaces[i as int];
            &&& o.result is Ok <==> x.role is NoRole || x.role is Cursor
            &&& o.result is Ok ==> o.state.cursor.kind == (Kind::Surface { surface: i, hx, hy })
                && o.state.compositor.surfaces[i as int].role is Cursor
            &&& o.result matches Err(e) ==> e == Error::SurfaceHasRole && o.state == st
            &&& o.actions.len() == 0
            &&& st.cursor_set(None, hx, hy).state.cursor.kind == Kind::Hidden
        }),
{
}

/// When a client is gone, no window of it is left in the stack, and those of others are in the order in which they
/// were. Its surfaces are as if new, and all others are as they were. A surface of it is no longer shown at the
/// pointer.
pub proof fn law_client_is_gone(st: StateV, client: ClientId, j: int)
    requires
        0 <= j < st.compositor.surfaces.len(),
    ensures
        ({
            let after = st.client_removed(client);
            let s = st.compositor.surfaces;
            &&& after.focus_stack == st.focus_stack.filter(|k: usize| s[k as int].wl.client != client)
            &&& s[j].wl.client != client ==> after.compositor.surfaces[j] == s[j]
            &&& s[j].wl.client == client ==> {
                let x = after.compositor.surfaces[j];
                &&& x.wl == s[j].wl
                &&& x.role is NoRole && !x.mapped && !x.configured
                &&& x.cur.buffer is None && x.pending.buffer is None && x.pending_buffer is None
                &&& x.cur.frame_cbs.len() == 0 && x.pending.frame_cbs.len() == 0
                &&& x.cur.subsurfaces.len() == 0 && x.buf_transform is None
            }
            &&& st.cursor.kind matches Kind::Surface { surface, .. } ==> (if s[surface as int].wl.client == client {
                after.cursor.kind == Kind::Hidden
            } else {
                after.cursor.kind == st.cursor.kind
            })
        }),
{
    let s = st.compositor.surfaces;
    law_removed_client(st.focus_stack, s, client);
    lemma_surfaces_released(s, s.len(), client);
}

} // verus!
