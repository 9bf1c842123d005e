//! What keys, buttons and moves of the pointer do to the windows.
use vstd::prelude::*;
use crate::cursor::{Kind, Shape};
use crate::draw::rounded;
use crate::focus_stack::law_raised;
use crate::globals::surfaces::surfaces_wf;
use crate::globals::xdg_shell::toplevel::XdgToplevelRole;
use crate::hit::stack_hit;
use crate::input::{is_the_toplevel, key_meaning, saturated, KeyAction};
use crate::pointing::law_topmost_window_is_found;
use crate::protocol::{Action, Fixed, Handle, PressState, ResizeEdge};
use crate::seat::delivery::{
    button_said, buttons, key_said, keyboard_enter_said, keyboard_enters, keyboard_leave_said, keyboard_leaves, keys,
    law_button_is_told, law_focus_is_told, law_key_is_told, law_leaving_is_told, law_motion_is_told, motion_said,
    motions, of_client, pointer_enter_said, pointer_enters, pointer_leave_said, pointer_leaves,
};
use crate::seat::keyboard::ModsState;
use crate::seat::pointer::{PtrStateV, BTN_LEFT, BTN_RIGHT};
use crate::state::{focus_wf, StateV};

verus! {

/// A key goes to the window on top, which then has the focus: each keyboard of its client is told of the key once,
/// and no other keyboard is. If the focus was elsewhere, the client that had it is told that it has lost it, and the
/// one that gets it, that it has it.
pub proof fn law_keys_go_to_the_top_window(st: StateV, key: u32, time: u32, pressed: bool, mods: ModsState)
    requires
        st.focus_stack.len() > 0,
    ensures
        ({
            let o = st.key_forwarded(key, time, pressed, mods);
            let top = st.compositor.surfaces[st.focus_stack[st.focus_stack.len() - 1] as int].wl;
            let before = st.seat.keyboard.focused_surface;
            let keyboards = st.seat.clients.keyboards;
            let state = if pressed {
                PressState::Pressed
            } else {
                PressState::Released
            };
            &&& o.state.seat.keyboard.focused_surface == Some(top)
            &&& o.state.seat.keyboard.mods == mods
            &&& o.actions.filter(keys()) == of_client(keyboards, top.client).map_values(key_said(time, key, state))
            &&& o.actions.filter(keyboard_enters()) == if before != Some(top) {
                of_client(keyboards, top.client).map_values(keyboard_enter_said(top))
            } else {
                Seq::empty()
            }
            &&& o.actions.filter(keyboard_leaves()) == if before is Some && before != Some(top) {
                of_client(keyboards, before->0.client).map_values(keyboard_leave_said(before->0))
            } else {
                Seq::empty()
            }
            &&& o.state.focus_stack == st.focus_stack
            &&& o.state.compositor == st.compositor
            &&& o.state.seat.pointer == st.seat.pointer
        }),
{
    let top = st.compositor.surfaces[st.focus_stack[st.focus_stack.len() - 1] as int].wl;
    let k = st.seat.keyboard;
    let c = st.seat.clients;
    law_focus_is_told(k, Some(top), c.keyboards, c.data_devices, c.data_offers);
    let f = st.top_focused();
    let told = f.state.seat.keyboard.key_events(c.keyboards, mods, key, time, pressed);
    law_key_is_told(f.state.seat.keyboard, c.keyboards, mods, key, time, pressed);
    Seq::filter_distributes_over_add(f.actions, told, keys());
    Seq::filter_distributes_over_add(f.actions, told, keyboard_enters());
    Seq::filter_distributes_over_add(f.actions, told, keyboard_leaves());
    let o = st.key_forwarded(key, time, pressed, mods);
    assert(o.actions.filter(keys()) =~= told.filter(keys()));
    assert(o.actions.filter(keyboard_enters()) =~= f.actions.filter(keyboard_enters()));
    assert(o.actions.filter(keyboard_leaves()) =~= f.actions.filter(keyboard_leaves()));
}

/// Without windows the focus stays where it is, and a key goes to the client that has it, if there is one.
pub proof fn law_keys_without_windows(st: StateV, key: u32, time: u32, pressed: bool, mods: ModsState)
    requires
        st.focus_stack.len() == 0,
    ensures
        ({
            let o = st.key_forwarded(key, time, pressed, mods);
            let focus = st.seat.keyboard.focused_surface;
            let state = if pressed {
                PressState::Pressed
            } else {
                PressState::Released
            };
            &&& o.state.seat.keyboard.focused_surface == focus
            &&& o.state.seat.keyboard.mods == mods
            &&& o.actions.filter(keys()) == if focus is Some {
                of_client(st.seat.clients.keyboards, focus->0.client).map_values(key_said(time, key, state))
            } else {
                Seq::empty()
            }
            &&& o.actions.filter(keyboard_enters()) == Seq::<Action>::empty()
            &&& o.actions.filter(keyboard_leaves()) == Seq::<Action>::empty()
        }),
{
    let told = st.seat.keyboard.key_events(st.seat.clients.keyboards, mods, key, time, pressed);
    law_key_is_told(st.seat.keyboard, st.seat.clients.keyboards, mods, key, time, pressed);
    assert(st.key_forwarded(key, time, pressed, mods).actions =~= told);
}

/// The compositor quits on escape with the logo key held and on no other key; the keys for the virtual terminals
/// switch to the terminals from the first to the twelfth, one each; all other keys are passed on.
pub proof fn law_keys_of_the_compositor(keysym: u32, logo: bool)
    ensures
        key_meaning(keysym, logo) is Quit <==> logo && keysym == 0xff1b,
        key_meaning(keysym, logo) matches KeyAction::SwitchVt(vt) ==> 1 <= vt <= 12 && keysym == 0x1008fe00 + vt,
        0x1008fe01 <= keysym <= 0x1008fe0c ==> key_meaning(keysym, logo) is SwitchVt,
{
}

/// How far outwards the pointer was moved from the edges that are dragged, to the side and up or down.
pub open spec fn outwards(edge: ResizeEdge, dx: int, dy: int) -> (int, int) {
    match edge {
        ResizeEdge::NoEdge => (0, 0),
        ResizeEdge::Top => (0, -dy),
        ResizeEdge::Bottom => (0, dy),
        ResizeEdge::Left => (-dx, 0),
        ResizeEdge::TopLeft => (-dx, -dy),
        ResizeEdge::BottomLeft => (-dx, dy),
        ResizeEdge::Right => (dx, 0),
        ResizeEdge::TopRight => (dx, -dy),
        ResizeEdge::BottomRight => (dx, dy),
    }
}

/// Whether `n` pixels are nearest to a distance in units of 1/256 pixel, halves being rounded away from zero.
pub open spec fn in_pixels(n: int, distance: int) -> bool {
    if distance >= 0 {
        -128 < 256 * n - distance <= 128
    } else {
        -128 <= 256 * n - distance < 128
    }
}

/// Whether a length is asked for when one is wanted: the wanted one, or at least one pixel, if it keeps to the
/// limits, and else the limit. A limit of zero is none, and the lower limit is the stronger one.
pub open spec fn asked_when_wanted(asked: u32, wanted: int, min: u32, max: u32) -> bool {
    let len = if 1 <= wanted <= u32::MAX {
        wanted
    } else {
        1
    };
    if len < min || (max != 0 && max < min) {
        asked == min
    } else if max != 0 && len > max {
        asked == max
    } else {
        asked == len
    }
}

/// A limit that a client has set, zero where it has set none.
pub open spec fn limit(size: Option<(u32, u32)>) -> (u32, u32) {
    match size {
        Some(s) => s,
        None => (0, 0),
    }
}

/// While the pointer drags an edge of a window that is shown, the client is asked for a size that is larger than
/// that at the start by as many pixels as the pointer was moved outwards since, and smaller by as many as it was
/// moved inwards. In a direction in which no edge is dragged it is asked for the length at the start. Nothing is
/// asked as long as the pointer was moved by less than half a pixel. The window itself stays where it is.
pub proof fn law_size_follows_the_pointer(
    st: StateV,
    time: u32,
    surface: Handle,
    toplevel: Handle,
    edge: ResizeEdge,
    x0: Fixed,
    y0: Fixed,
    width0: u32,
    height0: u32,
    n: int,
    m: int,
)
    requires
        st.seat.pointer.state == (PtrStateV::Resizing {
            surface,
            toplevel,
            edge,
            ptr_start_x: x0,
            ptr_start_y: y0,
            toplevel_start_width: width0,
            toplevel_start_height: height0,
        }),
        is_the_toplevel(st.compositor.surfaces, surface.key as int, toplevel),
        st.compositor.surfaces[surface.key as int].mapped,
        in_pixels(n, outwards(edge, st.seat.pointer.x.0 - x0.0, st.seat.pointer.y.0 - y0.0).0),
        in_pixels(m, outwards(edge, st.seat.pointer.x.0 - x0.0, st.seat.pointer.y.0 - y0.0).1),
    ensures
        ({
            let o = st.pointer_moved(time);
            let i = surface.key as int;
            let t = st.compositor.surfaces[i].xdg()->0.specific->Toplevel_0;
            let u = o.state.compositor.surfaces[i].xdg()->0.specific->Toplevel_0;
            &&& o.actions.len() == 0
            &&& n == 0 && m == 0 ==> o.state == st
            &&& n != 0 || m != 0 ==> (u.pending_configure matches Some(c) && {
                &&& asked_when_wanted(c.width, width0 + n, limit(t.cur.min_size).0, limit(t.cur.max_size).0)
                &&& asked_when_wanted(c.heinght, height0 + m, limit(t.cur.min_size).1, limit(t.cur.max_size).1)
                &&& match t.pending_configure {
                    Some(p) => c.serial == p.serial && c.activated == p.activated,
                    None => c.serial == t.cur_configure.serial.wrapping_add(1) && c.activated
                        == t.cur_configure.activated,
                }
                &&& u.resizing matches Some(r) && r.0 == edge && r.3 == c.serial
            })
            &&& u.x == t.x && u.y == t.y && u.wl == t.wl
            &&& forall|j: int|
                0 <= j < st.compositor.surfaces.len() && j != i ==> #[trigger] o.state.compositor.surfaces[j]
                    == st.compositor.surfaces[j]
            &&& o.state.focus_stack == st.focus_stack
            &&& o.state.seat == st.seat
        }),
{
    lemma_in_pixels(n, outwards(edge, st.seat.pointer.x.0 - x0.0, st.seat.pointer.y.0 - y0.0).0);
    lemma_in_pixels(m, outwards(edge, st.seat.pointer.x.0 - x0.0, st.seat.pointer.y.0 - y0.0).1);
}

proof fn lemma_in_pixels(n: int, distance: int)
    requires
        in_pixels(n, distance),
        -0x1_0000_0000 <= distance <= 0x1_0000_0000,
    ensures
        rounded(distance) == n,
{
}

/// As long as the pointer moves a window, the window is moved by as many pixels as the pointer since the start, and
/// nothing else changes.
pub proof fn law_window_follows_the_pointer(
    st: StateV,
    time: u32,
    surface: Handle,
    toplevel: Handle,
    x0: Fixed,
    y0: Fixed,
    left0: i32,
    top0: i32,
    n: i32,
    m: i32,
)
    requires
        st.seat.pointer.state == (PtrStateV::Moving {
            surface,
            toplevel,
            ptr_start_x: x0,
            ptr_start_y: y0,
            toplevel_start_x: left0,
            toplevel_start_y: top0,
        }),
        is_the_toplevel(st.compositor.surfaces, surface.key as int, toplevel),
        in_pixels(n as int, st.seat.pointer.x.0 - x0.0),
        in_pixels(m as int, st.seat.pointer.y.0 - y0.0),
    ensures
        ({
            let o = st.pointer_moved(time);
            let i = surface.key as int;
            let t = st.compositor.surfaces[i].xdg()->0.specific->Toplevel_0;
            let u = o.state.compositor.surfaces[i].xdg()->0.specific->Toplevel_0;
            &&& o.actions.len() == 0
            &&& u.x == left0.wrapping_add(n)
            &&& u.y == top0.wrapping_add(m)
            &&& u == (XdgToplevelRole { x: u.x, y: u.y, ..t })
            &&& forall|j: int|
                0 <= j < st.compositor.surfaces.len() && j != i ==> #[trigger] o.state.compositor.surfaces[j]
                    == st.compositor.surfaces[j]
            &&& o.state.focus_stack == st.focus_stack
            &&& o.state.seat == st.seat
        }),
{
    lemma_in_pixels(n as int, st.seat.pointer.x.0 - x0.0);
    lemma_in_pixels(m as int, st.seat.pointer.y.0 - y0.0);
}

/// Whether the pointer is free: it neither moves nor resizes a window.
pub open spec fn is_free(state: PtrStateV) -> bool {
    state is Idle || state is Entered
}

/// A pointer that is free is on the surface in front at its place, which is told where on it, and on none where
/// there is none, where the cursor has the default shape. No window changes.
pub proof fn law_free_pointer_is_on_what_is_in_front(st: StateV, time: u32)
    requires
        is_free(st.seat.pointer.state),
    ensures
        ({
            let o = st.pointer_moved(time);
            let p = st.seat.pointer;
            let pointers = st.seat.clients.pointers;
            let s = st.compositor.surfaces;
            &&& match stack_hit(st.focus_stack, s, p.x.0 as i64, p.y.0 as i64) {
                Some(h) => {
                    let wl = s[h.surf as int].wl;
                    &&& o.state.seat.pointer.state matches PtrStateV::Entered { surface, .. } && surface == wl
                    &&& i32::MIN <= h.sx <= i32::MAX && i32::MIN <= h.sy <= i32::MAX ==> {
                        let x = Fixed(h.sx as i32);
                        let y = Fixed(h.sy as i32);
                        if p.state is Entered && p.state->Entered_surface == wl {
                            &&& o.actions.filter(motions()) == of_client(pointers, wl.client).map_values(
                                motion_said(time, x, y),
                            )
                            &&& o.actions.filter(pointer_enters()) == Seq::<Action>::empty()
                            &&& o.actions.filter(pointer_leaves()) == Seq::<Action>::empty()
                        } else {
                            &&& o.actions.filter(motions()) == Seq::<Action>::empty()
                            &&& o.actions.filter(pointer_enters()) == of_client(pointers, wl.client).map_values(
                                pointer_enter_said(wl, x, y),
                            )
                            &&& o.actions.filter(pointer_leaves()) == if p.state is Entered {
                                of_client(pointers, p.state->Entered_surface.client).map_values(
                                    pointer_leave_said(p.state->Entered_surface),
                                )
                            } else {
                                Seq::empty()
                            }
                        }
                    }
                    &&& o.state.cursor == st.cursor
                },
                None => {
                    &&& o.state.seat.pointer.state is Idle
                    &&& o.actions.filter(motions()) == Seq::<Action>::empty()
                    &&& o.actions.filter(pointer_enters()) == Seq::<Action>::empty()
                    &&& o.actions.filter(pointer_leaves()) == if p.state is Entered {
                        of_client(pointers, p.state->Entered_surface.client).map_values(
                            pointer_leave_said(p.state->Entered_surface),
                        )
                    } else {
                        Seq::empty()
                    }
                    &&& st.cursor.shapes.contains_key(Shape::Default) ==> o.state.cursor.kind == Kind::Texture(
                        st.cursor.shapes[Shape::Default],
                    )
                },
            }
            &&& o.state.seat.pointer.x == p.x && o.state.seat.pointer.y == p.y
            &&& o.state.compositor == st.compositor
            &&& o.state.focus_stack == st.focus_stack
            &&& o.state.seat.keyboard == st.seat.keyboard
        }),
{
    let p = st.seat.pointer;
    let pointers = st.seat.clients.pointers;
    let s = st.compositor.surfaces;
    match stack_hit(st.focus_stack, s, p.x.0 as i64, p.y.0 as i64) {
        Some(h) => {
            let wl = s[h.surf as int].wl;
            law_motion_is_told(p, pointers, wl, time, saturated(h.sx as int), saturated(h.sy as int));
        },
        None => {
            law_leaving_is_told(p.state, pointers);
        },
    }
}

/// Whether one window was brought to the top of a stack, and the others are in the order in which they were.
pub open spec fn is_raised(before: Seq<usize>, k: int, after: Seq<usize>) -> bool {
    &&& after.len() == before.len()
    &&& after[after.len() - 1] == before[k]
    &&& forall|l: int| 0 <= l < k ==> #[trigger] after[l] == before[l]
    &&& forall|l: int| k <= l < before.len() - 1 ==> #[trigger] after[l] == before[l + 1]
}

/// With the alt key held, the left button takes hold of the topmost window under the pointer to move it, and the
/// right one to resize it by its lower right corner, from where pointer and window are. The window comes to the top
/// and has the keyboard focus, and the surface under the pointer is left. Where there is no window nothing happens.
pub proof fn law_button_takes_hold_of_a_window(st: StateV, btn: u32, time: u32)
    requires
        surfaces_wf(st.compositor.surfaces),
        focus_wf(st.focus_stack, st.compositor.surfaces),
        st.focus_stack.len() <= usize::MAX,
        btn == BTN_LEFT || btn == BTN_RIGHT,
    ensures
        ({
            let o = st.button_pressed(btn, time, true);
            let p = st.seat.pointer;
            let q = o.state.seat.pointer;
            let s = st.compositor.surfaces;
            &&& match stack_hit(st.focus_stack, s, p.x.0 as i64, p.y.0 as i64) {
                Some(h) => {
                    let x = s[st.focus_stack[h.toplevel_idx as int] as int];
                    let t = x.xdg()->0.specific->Toplevel_0;
                    let g = x.xdg()->0.effective_window_geometry->0;
                    &&& is_raised(st.focus_stack, h.toplevel_idx as int, o.state.focus_stack)
                    &&& o.state.seat.keyboard.focused_surface == Some(x.wl)
                    &&& btn == 0x110 ==> q.state == (PtrStateV::Moving {
                        surface: x.wl,
                        toplevel: t.wl,
                        ptr_start_x: p.x,
                        ptr_start_y: p.y,
                        toplevel_start_x: t.x,
                        toplevel_start_y: t.y,
                    })
                    &&& btn == 0x111 ==> q.state == (PtrStateV::Resizing {
                        surface: x.wl,
                        toplevel: t.wl,
                        edge: ResizeEdge::BottomRight,
                        ptr_start_x: p.x,
                        ptr_start_y: p.y,
                        toplevel_start_width: g.width,
                        toplevel_start_height: g.height,
                    })
                    &&& o.actions.filter(pointer_leaves()) == if p.state is Entered {
                        of_client(st.seat.clients.pointers, p.state->Entered_surface.client).map_values(
                            pointer_leave_said(p.state->Entered_surface),
                        )
                    } else {
                        Seq::empty()
                    }
                },
                None => {
                    &&& o.state.focus_stack == st.focus_stack
                    &&& o.state.seat.keyboard == st.seat.keyboard
                    &&& q.state == p.state
                    &&& o.actions.len() == 0
                },
            }
            &&& o.actions.filter(buttons()) == Seq::<Action>::empty()
            &&& o.state.compositor == st.compositor
            &&& q.x == p.x && q.y == p.y
            &&& q.pressed_buttons.contains(btn)
        }),
{
    let p = st.seat.pointer;
    let s = st.compositor.surfaces;
    let o = st.button_pressed(btn, time, true);
    law_button_is_told(p, st.seat.clients.pointers, btn, time, true, false, btn);
    reveal(Seq::filter);
    if let Some(h) = stack_hit(st.focus_stack, s, p.x.0 as i64, p.y.0 as i64) {
        law_topmost_window_is_found(st.focus_stack, s, p.x.0 as i64, p.y.0 as i64);
        law_raised(st.focus_stack, h.toplevel_idx as int);
        let k = st.seat.keyboard;
        let c = st.seat.clients;
        let wl = s[st.focus_stack[h.toplevel_idx as int] as int].wl;
        let told = k.focus_moves(Some(wl), c.keyboards, c.data_devices, c.data_offers).1;
        let left = p.state.leave_events(c.pointers);
        law_leaving_is_told(p.state, c.pointers);
        law_focus_is_told(k, Some(wl), c.keyboards, c.data_devices, c.data_offers);
        Seq::filter_distributes_over_add(told, left, pointer_leaves());
        Seq::filter_distributes_over_add(told, left, buttons());
        assert(o.actions == told + left);
        assert(o.actions.filter(pointer_leaves()) =~= left.filter(pointer_leaves()));
        assert(o.actions.filter(buttons()) =~= Seq::empty());
    }
}

/// A press that is not for the compositor is passed on to the surface under the pointer, and changes no window.
pub proof fn law_other_presses_are_passed_on(st: StateV, btn: u32, time: u32, alt: bool)
    requires
        !alt || (btn != BTN_LEFT && btn != BTN_RIGHT),
    ensures
        ({
            let o = st.button_pressed(btn, time, alt);
            let p = st.seat.pointer;
            &&& o.actions.filter(buttons()) == match p.state {
                PtrStateV::Entered { surface, pressed_buttons, .. } => if !pressed_buttons.contains(btn) {
                    of_client(st.seat.clients.pointers, surface.client).map_values(
                        button_said(time, btn, PressState::Pressed),
                    )
                } else {
                    Seq::empty()
                },
                _ => Seq::empty(),
            }
            &&& p.state is Entered ==> o.state.seat.pointer.state is Entered
                && o.state.seat.pointer.state->Entered_surface == p.state->Entered_surface
                && o.state.seat.pointer.state->Entered_pressed_buttons.contains(btn)
            &&& p.state !is Entered ==> o.state.seat.pointer.state == p.state
            &&& o.state.seat.pointer.pressed_buttons.contains(btn)
            &&& o.state.focus_stack == st.focus_stack
            &&& o.state.compositor == st.compositor
            &&& o.state.seat.keyboard == st.seat.keyboard
        }),
{
    law_button_is_told(st.seat.pointer, st.seat.clients.pointers, btn, time, true, true, btn);
}

/// Letting a button go lets go of a window that is moved or resized, of which no client hears. Else the surface
/// under the pointer hears of it, if it knows of the press.
pub proof fn law_release_lets_go(st: StateV, btn: u32, time: u32)
    ensures
        ({
            let o = st.button_released(btn, time);
            let p = st.seat.pointer;
            &&& !is_free(p.state) ==> o.state.seat.pointer.state is Idle && o.actions.len() == 0
            &&& is_free(p.state) ==> is_free(o.state.seat.pointer.state)
            &&& p.state matches PtrStateV::Entered { surface, pressed_buttons, .. } ==> {
                &&& o.actions.filter(buttons()) == if pressed_buttons.contains(btn) {
                    of_client(st.seat.clients.pointers, surface.client).map_values(
                        button_said(time, btn, PressState::Released),
                    )
                } else {
                    Seq::empty()
                }
                &&& o.state.seat.pointer.state is Entered && o.state.seat.pointer.state->Entered_surface == surface
                &&& !o.state.seat.pointer.state->Entered_pressed_buttons.contains(btn)
            }
            &&& !o.state.seat.pointer.pressed_buttons.contains(btn)
            &&& o.state.focus_stack == st.focus_stack
            &&& o.state.compositor == st.compositor
            &&& o.state.seat.keyboard == st.seat.keyboard
        }),
{
    law_button_is_told(st.seat.pointer, st.seat.clients.pointers, btn, time, false, true, btn);
    law_button_is_told(st.seat.pointer, st.seat.clients.pointers, btn, time, false, false, btn);
}

} // verus!
