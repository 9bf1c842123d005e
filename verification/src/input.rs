//! What input from the backend leads to.
use vstd::prelude::*;
use crate::backend::InputTimestamp;
use crate::cursor::Shape;
use crate::draw::{round_pixels, rounded};
use crate::focus_stack::{law_raised, raised};
use crate::globals::compositor::{SurfaceRole, SurfaceV};
use crate::globals::compositor_requests::lemma_acyclic_kept;
use crate::globals::surfaces::{acyclic, surface_wf, surfaces_wf};
use crate::globals::xdg_shell::requests::lemma_window_changes;
use crate::globals::xdg_shell::toplevel::XdgToplevelRole;
use crate::globals::xdg_shell::SpecificRole;
use crate::hit::{law_hit_takes_input, popups_placed, stack_hit, SurfaceUnderCursor};
use crate::protocol::{Action, Fixed, Handle, ResizeEdge};
use crate::seat::keyboard::{KeyboardV, ModsState};
use crate::seat::pointer::{PointerV, PtrState, PtrStateV, BTN_LEFT, BTN_RIGHT};
use crate::seat::SeatV;
use crate::state::{lemma_focus_kept, shown_toplevel, state_wf, with_toplevel, State, StateV};

verus! {

/// The symbol of the escape key.
pub const KEY_ESCAPE: u32 = 0xff1b;

/// The symbol of the key that switches to the first virtual terminal.
pub const KEY_SWITCH_VT_1: u32 = 0x1008fe01;

/// The symbol of the key that switches to the last virtual terminal.
pub const KEY_SWITCH_VT_12: u32 = 0x1008fe0c;

/// What a key press means to the compositor.
#[derive(Debug, Clone, Copy, PartialEq, Eq, Structural)]
pub enum KeyAction {
    Quit,
    SwitchVt(u32),
    Forward,
}

/// What a key press means to the compositor, by its symbol and whether the logo key is held.
pub open spec fn key_meaning(keysym: u32, logo: bool) -> KeyAction {
    if logo && keysym == KEY_ESCAPE {
        KeyAction::Quit
    } else if KEY_SWITCH_VT_1 <= keysym <= KEY_SWITCH_VT_12 {
        KeyAction::SwitchVt((keysym - KEY_SWITCH_VT_1 + 1) as u32)
    } else {
        KeyAction::Forward
    }
}

/// What a key press means to the compositor.
pub fn key_action(keysym: u32, logo: bool) -> (r: KeyAction)
    ensures
        r == key_meaning(keysym, logo),
{
    if logo && keysym == KEY_ESCAPE {
        KeyAction::Quit
    } else if keysym >= KEY_SWITCH_VT_1 && keysym <= KEY_SWITCH_VT_12 {
        KeyAction::SwitchVt(keysym - KEY_SWITCH_VT_1 + 1)
    } else {
        KeyAction::Forward
    }
}

/// What comes of input.
#[verifier::ext_equal]
pub struct InputOutcome {
    pub state: StateV,
    pub actions: Seq<Action>,
}

/// The nearest value that a position can have.
pub open spec fn saturated(x: int) -> Fixed {
    if x > i32::MAX {
        Fixed(i32::MAX)
    } else if x < i32::MIN {
        Fixed(i32::MIN)
    } else {
        Fixed(x as i32)
    }
}

fn saturate(x: i64) -> (r: Fixed)
    ensures
        r == saturated(x as int),
{
    if x > i32::MAX as i64 {
        Fixed(i32::MAX)
    } else if x < i32::MIN as i64 {
        Fixed(i32::MIN)
    } else {
        Fixed(x as i32)
    }
}

/// A length of a window after it was dragged; it is at least one pixel.
pub open spec fn dragged_length(start: u32, by: i32) -> u32 {
    if 1 <= start + by <= u32::MAX {
        (start + by) as u32
    } else {
        1
    }
}

fn drag_length(start: u32, by: i32) -> (r: u32)
    ensures
        r == dragged_length(start, by),
        r >= 1,
{
    let len: i64 = start as i64 + by as i64;
    if len >= 1 && len <= u32::MAX as i64 {
        len as u32
    } else {
        1
    }
}

/// How much the width and the height change when the pointer moves from `start` to `at` while it
/// drags an edge.
pub open spec fn drag(edge: ResizeEdge, start: (Fixed, Fixed), at: (Fixed, Fixed)) -> (i32, i32) {
    (
        if edge.has_left() {
            rounded(start.0.0 - at.0.0)
        } else if edge.has_right() {
            rounded(at.0.0 - start.0.0)
        } else {
            0
        },
        if edge.has_bottom() {
            rounded(at.1.0 - start.1.0)
        } else if edge.has_top() {
            rounded(start.1.0 - at.1.0)
        } else {
            0
        },
    )
}

/// Whether surface `i` is the toplevel `wl`.
pub open spec fn is_the_toplevel(s: Seq<SurfaceV>, i: int, wl: Handle) -> bool {
    &&& 0 <= i < s.len()
    &&& s[i].is_toplevel()
    &&& s[i].xdg()->0.specific->Toplevel_0.wl == wl
}

impl StateV {
    /// Whether the pointer can move: a window that it moves or resizes is still there, and what it
    /// asks of a window that it resizes can be asked.
    pub open spec fn can_move_pointer(self) -> bool {
        let s = self.compositor.surfaces;
        match self.seat.pointer.state {
            PtrStateV::Moving { surface, toplevel, .. } => is_the_toplevel(s, surface.key as int, toplevel),
            PtrStateV::Resizing { surface, toplevel, edge, .. } => {
                &&& is_the_toplevel(s, surface.key as int, toplevel)
                &&& ({
                    let x = s[surface.key as int];
                    x.xdg()->0.specific->Toplevel_0.can_request_size(
                        x.mapped,
                        x.xdg()->0.effective_window_geometry,
                        edge,
                    )
                })
            },
            _ => popups_placed(s),
        }
    }

    /// What comes of the pointer having moved: the window that it moves or resizes follows, else the
    /// surface under it is told.
    pub open spec fn pointer_moved(self, time: u32) -> InputOutcome {
        let s = self.compositor.surfaces;
        let p = self.seat.pointer;
        match p.state {
            PtrStateV::Moving { surface, ptr_start_x, ptr_start_y, toplevel_start_x, toplevel_start_y, .. } => {
                let i = surface.key as int;
                let t = s[i].xdg()->0.specific->Toplevel_0;
                InputOutcome {
                    state: self.with_surface(
                        i,
                        with_toplevel(
                            s[i],
                            XdgToplevelRole {
                                x: toplevel_start_x.wrapping_add(rounded(p.x.0 - ptr_start_x.0)),
                                y: toplevel_start_y.wrapping_add(rounded(p.y.0 - ptr_start_y.0)),
                                ..t
                            },
                        ),
                    ),
                    actions: Seq::empty(),
                }
            },
            PtrStateV::Resizing {
                surface,
                edge,
                ptr_start_x,
                ptr_start_y,
                toplevel_start_width,
                toplevel_start_height,
                ..
            } => {
                let i = surface.key as int;
                let xdg = s[i].xdg()->0;
                let t = xdg.specific->Toplevel_0;
                let by = drag(edge, (ptr_start_x, ptr_start_y), (p.x, p.y));
                InputOutcome {
                    state: if by.0 != 0 || by.1 != 0 {
                        self.with_surface(
                            i,
                            with_toplevel(
                                s[i],
                                t.size_requested(
                                    s[i].mapped,
                                    xdg.effective_window_geometry,
                                    edge,
                                    (
                                        dragged_length(toplevel_start_width, by.0),
                                        dragged_length(toplevel_start_height, by.1),
                                    ),
                                ),
                            ),
                        )
                    } else {
                        self
                    },
                    actions: Seq::empty(),
                }
            },
            _ => match stack_hit(self.focus_stack, s, p.x.0 as i64, p.y.0 as i64) {
                Some(h) => {
                    let wl = s[h.surf as int].wl;
                    let x = saturated(h.sx as int);
                    let y = saturated(h.sy as int);
                    InputOutcome {
                        state: StateV { seat: SeatV { pointer: p.forwarded(wl, x, y), ..self.seat }, ..self },
                        actions: p.forward_events(self.seat.clients.pointers, wl, time, x, y),
                    }
                },
                None => InputOutcome {
                    state: StateV {
                        seat: SeatV { pointer: p.left(), ..self.seat },
                        cursor: self.cursor.shape_set(Shape::Default),
                        ..self
                    },
                    actions: p.state.leave_events(self.seat.clients.pointers),
                },
            },
        }
    }

    /// The state with the pointer at another place.
    pub open spec fn with_pointer_at(self, x: Fixed, y: Fixed) -> StateV {
        StateV { seat: SeatV { pointer: PointerV { x, y, ..self.seat.pointer }, ..self.seat }, ..self }
    }

    /// What comes of giving the keyboard focus to the window on top, if there is one.
    pub open spec fn top_focused(self) -> InputOutcome {
        if self.focus_stack.len() == 0 {
            InputOutcome { state: self, actions: Seq::empty() }
        } else {
            let wl = self.compositor.surfaces[self.focus_stack.last() as int].wl;
            InputOutcome {
                state: StateV { seat: self.seat.focused(Some(wl)), ..self },
                actions: self.seat.focus_events(Some(wl)),
            }
        }
    }

    /// What comes of a key that goes to the window on top, after which `mods` are in effect.
    pub open spec fn key_forwarded(self, key: u32, time: u32, pressed: bool, mods: ModsState) -> InputOutcome {
        let f = self.top_focused();
        let k = f.state.seat.keyboard;
        InputOutcome {
            state: StateV {
                seat: SeatV { keyboard: KeyboardV { mods, ..k }, ..f.state.seat },
                ..f.state
            },
            actions: f.actions + k.key_events(f.state.seat.clients.keyboards, mods, key, time, pressed),
        }
    }

    /// The state after a button was noted.
    pub open spec fn button_noted(self, btn: u32, pressed: bool, forward: bool) -> StateV {
        StateV {
            seat: SeatV { pointer: self.seat.pointer.button_updated(btn, pressed, forward), ..self.seat },
            ..self
        }
    }

    /// What is sent when a button is noted.
    pub open spec fn button_events(self, btn: u32, time: u32, pressed: bool, forward: bool) -> Seq<Action> {
        self.seat.pointer.button_events(self.seat.clients.pointers, btn, time, pressed, forward)
    }

    /// What comes of bringing the window under the pointer to the top and giving it the focus.
    pub open spec fn window_raised(self, k: int) -> InputOutcome {
        let i = self.focus_stack[k] as int;
        let wl = self.compositor.surfaces[i].wl;
        InputOutcome {
            state: StateV {
                focus_stack: raised(self.focus_stack, k),
                seat: self.seat.focused(Some(wl)),
                ..self
            },
            actions: self.seat.focus_events(Some(wl)),
        }
    }

    /// The window in the stack that is under the pointer.
    pub open spec fn under_pointer(self) -> Option<SurfaceUnderCursor> {
        stack_hit(
            self.focus_stack,
            self.compositor.surfaces,
            self.seat.pointer.x.0 as i64,
            self.seat.pointer.y.0 as i64,
        )
    }

    /// What comes of a button that goes down. With the alt key held, the left button moves the window
    /// under the pointer and the right one resizes it; the window is brought to the top. All other
    /// presses go to the surface under the pointer.
    pub open spec fn button_pressed(self, btn: u32, time: u32, alt: bool) -> InputOutcome {
        if alt && (btn == BTN_LEFT || btn == BTN_RIGHT) {
            let st = self.button_noted(btn, true, false);
            match st.under_pointer() {
                None => InputOutcome { state: st, actions: Seq::empty() },
                Some(h) => {
                    let r = st.window_raised(h.toplevel_idx as int);
                    let x = st.compositor.surfaces[st.focus_stack[h.toplevel_idx as int] as int];
                    let t = x.xdg()->0.specific->Toplevel_0;
                    let p = r.state.seat.pointer;
                    let state = if btn == BTN_LEFT {
                        PtrStateV::Moving {
                            surface: x.wl,
                            toplevel: t.wl,
                            ptr_start_x: p.x,
                            ptr_start_y: p.y,
                            toplevel_start_x: t.x,
                            toplevel_start_y: t.y,
                        }
                    } else {
                        PtrStateV::Resizing {
                            surface: x.wl,
                            toplevel: t.wl,
                            edge: ResizeEdge::BottomRight,
                            ptr_start_x: p.x,
                            ptr_start_y: p.y,
                            toplevel_start_width: x.xdg()->0.effective_window_geometry->0.width,
                            toplevel_start_height: x.xdg()->0.effective_window_geometry->0.height,
                        }
                    };
                    InputOutcome {
                        state: StateV {
                            seat: SeatV { pointer: PointerV { state, ..p }, ..r.state.seat },
                            ..r.state
                        },
                        actions: r.actions + p.state.leave_events(r.state.seat.clients.pointers),
                    }
                },
            }
        } else {
            InputOutcome {
                state: self.button_noted(btn, true, true),
                actions: self.button_events(btn, time, true, true),
            }
        }
    }

    /// What comes of a button that goes up: a window that was moved or resized is let go, else the
    /// surface under the pointer is told.
    pub open spec fn button_released(self, btn: u32, time: u32) -> InputOutcome {
        match self.seat.pointer.state {
            PtrStateV::Moving { .. } | PtrStateV::Resizing { .. } => {
                let st = self.button_noted(btn, false, false);
                InputOutcome {
                    state: StateV { seat: SeatV { pointer: st.seat.pointer.left(), ..st.seat }, ..st },
                    actions: Seq::empty(),
                }
            },
            _ => InputOutcome {
                state: self.button_noted(btn, false, true),
                actions: self.button_events(btn, time, false, true),
            },
        }
    }
}

/// A window that was found is in the stack, and has a geometry.
proof fn lemma_stack_hit(stack: Seq<usize>, s: Seq<SurfaceV>, x: i64, y: i64)
    requires
        surfaces_wf(s),
        s.len() <= usize::MAX,
        stack.len() <= usize::MAX,
        forall|k: int| 0 <= k < stack.len() ==> shown_toplevel(s, #[trigger] stack[k] as int),
    ensures
        stack_hit(stack, s, x, y) matches Some(h) ==> h.toplevel_idx < stack.len() && h.surf < s.len()
            && s[stack[h.toplevel_idx as int] as int].xdg()->0.effective_window_geometry is Some,
    decreases stack.len(),
{
    if stack.len() > 0 {
        let i = stack[stack.len() - 1] as int;
        assert(shown_toplevel(s, i));
        let xdg = s[i].xdg()->0;
        let t = xdg.specific->Toplevel_0;
        if let Some(g) = xdg.effective_window_geometry {
            law_hit_takes_input(
                s,
                i,
                crate::hit::shifted(x, t.x.wrapping_sub(g.x)),
                crate::hit::shifted(y, t.y.wrapping_sub(g.y)),
                crate::globals::surfaces::levels(s),
            );
        }
        assert forall|k: int| 0 <= k < stack.drop_last().len() implies shown_toplevel(
            s,
            #[trigger] stack.drop_last()[k] as int,
        ) by {
            assert(stack.drop_last()[k] == stack[k]);
        }
        lemma_stack_hit(stack.drop_last(), s, x, y);
        if let Some(h) = stack_hit(stack.drop_last(), s, x, y) {
            assert(stack.drop_last()[h.toplevel_idx as int] == stack[h.toplevel_idx as int]);
        }
    }
}

impl State {
    /// Whether the pointer can move.
    pub fn pointer_can_move(&self) -> (r: bool)
        requires
            state_wf(self@),
        ensures
            r == self@.can_move_pointer(),
    {
        match &self.seat.pointer.state {
            PtrState::Moving { surface, toplevel, .. } => self.is_toplevel(*surface, *toplevel),
            PtrState::Resizing { surface, toplevel, edge, .. } => {
                if !self.is_toplevel(*surface, *toplevel) {
                    return false;
                }
                let s = self.compositor.surfaces.get(surface.key as usize);
                match &s.role {
                    SurfaceRole::Xdg(xdg) => match &xdg.specific {
                        SpecificRole::Toplevel(t) => {
                            if !s.mapped {
                                true
                            } else {
                                match t.resizing {
                                    None => xdg.effective_window_geometry.is_some(),
                                    Some((e, _, _, _)) => e == *edge,
                                }
                            }
                        },
                        _ => false,
                    },
                    _ => false,
                }
            },
            PtrState::Idle => self.compositor.surfaces.popups_have_places(),
            PtrState::Entered(_) => self.compositor.surfaces.popups_have_places(),
        }
    }

    /// Whether a surface is a toplevel.
    fn is_toplevel(&self, surface: Handle, toplevel: Handle) -> (r: bool)
        requires
            state_wf(self@),
        ensures
            r == is_the_toplevel(self@.compositor.surfaces, surface.key as int, toplevel),
    {
        let n: usize = self.compositor.surfaces.len();
        if surface.key >= n as u64 {
            return false;
        }
        match &self.compositor.surfaces.get(surface.key as usize).role {
            SurfaceRole::Xdg(xdg) => match &xdg.specific {
                SpecificRole::Toplevel(t) => t.wl == toplevel,
                _ => false,
            },
            _ => false,
        }
    }

    /// Lets what the pointer moves, resizes or is on follow the pointer.
    pub fn pointer_moved(&mut self, timestamp: InputTimestamp, actions: &mut Vec<Action>)
        requires
            state_wf(old(self)@),
            acyclic(old(self)@.compositor.surfaces),
            old(self)@.can_move_pointer(),
        ensures
            final(self)@ == old(self)@.pointer_moved(timestamp.0).state,
            final(actions)@ == old(actions)@ + old(self)@.pointer_moved(timestamp.0).actions,
            state_wf(final(self)@),
            acyclic(final(self)@.compositor.surfaces),
    {
        let ghost st = self@;
        let ghost s = st.compositor.surfaces;
        let ghost a0 = actions@;
        let ghost o = st.pointer_moved(timestamp.0);
        proof {
            assert(a0 + Seq::<Action>::empty() =~= a0);
        }
        let px = self.seat.pointer.x;
        let py = self.seat.pointer.y;
        match &self.seat.pointer.state {
            PtrState::Moving { surface, ptr_start_x, ptr_start_y, toplevel_start_x, toplevel_start_y, .. } => {
                let i: usize = surface.key as usize;
                let x: i32 = toplevel_start_x.wrapping_add(round_pixels(px.0 as i64 - ptr_start_x.0 as i64));
                let y: i32 = toplevel_start_y.wrapping_add(round_pixels(py.0 as i64 - ptr_start_y.0 as i64));
                assert(self.compositor.surfaces.list@[i as int]@ == s[i as int]);
                assert(surface_wf(s, i as int));
                if let SurfaceRole::Xdg(xdg) = &mut self.compositor.surfaces.list[i].role {
                    if let SpecificRole::Toplevel(t) = &mut xdg.specific {
                        t.x = x;
                        t.y = y;
                    }
                }
                proof {
                    let u = o.state.compositor.surfaces;
                    assert(self@.compositor.surfaces =~= u);
                    lemma_window_changes(s, i as int, u[i as int].xdg()->0);
                    lemma_focus_kept(st.focus_stack, s, u);
                    lemma_acyclic_kept(s, u);
                }
            },
            PtrState::Resizing {
                surface,
                edge,
                ptr_start_x,
                ptr_start_y,
                toplevel_start_width,
                toplevel_start_height,
                ..
            } => {
                let i: usize = surface.key as usize;
                let edge = *edge;
                let mut dw: i32 = 0;
                let mut dh: i32 = 0;
                if edge.top() {
                    dh = round_pixels(ptr_start_y.0 as i64 - py.0 as i64);
                }
                if edge.bottom() {
                    dh = round_pixels(py.0 as i64 - ptr_start_y.0 as i64);
                }
                if edge.right() {
                    dw = round_pixels(px.0 as i64 - ptr_start_x.0 as i64);
                }
                if edge.left() {
                    dw = round_pixels(ptr_start_x.0 as i64 - px.0 as i64);
                }
                assert(self.compositor.surfaces.list@[i as int]@ == s[i as int]);
                assert(surface_wf(s, i as int));
                if dw != 0 || dh != 0 {
                    let width: u32 = drag_length(*toplevel_start_width, dw);
                    let height: u32 = drag_length(*toplevel_start_height, dh);
                    let mapped = self.compositor.surfaces.list[i].mapped;
                    if let SurfaceRole::Xdg(xdg) = &mut self.compositor.surfaces.list[i].role {
                        let geom = xdg.effective_window_geometry;
                        if let SpecificRole::Toplevel(t) = &mut xdg.specific {
                            t.request_size(mapped, geom, edge, width, height);
                        }
                    }
                    proof {
                        let u = o.state.compositor.surfaces;
                        assert(self@.compositor.surfaces =~= u);
                        lemma_window_changes(s, i as int, u[i as int].xdg()->0);
                        lemma_focus_kept(st.focus_stack, s, u);
                        lemma_acyclic_kept(s, u);
                    }
                }
            },
            _ => {
                proof {
                    assert(self.focus_stack@.len() <= usize::MAX) by {
                        self.focus_stack.lemma_len();
                    }
                    lemma_stack_hit(st.focus_stack, s, px.0 as i64, py.0 as i64);
                }
                match self.focus_stack.surface_at(&self.compositor.surfaces, px, py) {
                    Some(h) => {
                        let wl = self.compositor.surfaces.get(h.surf).wl;
                        self.seat.pointer.forward_pointer(
                            wl,
                            timestamp,
                            saturate(h.sx),
                            saturate(h.sy),
                            &self.seat.clients.pointers,
                            actions,
                        );
                    },
                    None => {
                        self.seat.pointer.leave_any_surface(&self.seat.clients.pointers, actions);
                        self.cursor.set_shape(Shape::Default);
                    },
                }
            },
        }
    }

    /// Moves the pointer to a place on the screen.
    pub fn pointer_motion_absolute(
        &mut self,
        timestamp: InputTimestamp,
        x: Fixed,
        y: Fixed,
        actions: &mut Vec<Action>,
    )
        requires
            state_wf(old(self)@),
            acyclic(old(self)@.compositor.surfaces),
            old(self)@.can_move_pointer(),
        ensures
            ({
                let o = old(self)@.with_pointer_at(x, y).pointer_moved(timestamp.0);
                &&& final(self)@ == o.state
                &&& final(actions)@ == old(actions)@ + o.actions
            }),
            state_wf(final(self)@),
            acyclic(final(self)@.compositor.surfaces),
    {
        self.seat.pointer.x = x;
        self.seat.pointer.y = y;
        self.pointer_moved(timestamp, actions);
    }

    /// Moves the pointer by a distance.
    pub fn pointer_motion_relative(
        &mut self,
        timestamp: InputTimestamp,
        dx: Fixed,
        dy: Fixed,
        actions: &mut Vec<Action>,
    )
        requires
            state_wf(old(self)@),
            acyclic(old(self)@.compositor.surfaces),
            old(self)@.can_move_pointer(),
        ensures
            ({
                let p = old(self)@.seat.pointer;
                let o = old(self)@.with_pointer_at(saturated(p.x.0 + dx.0), saturated(p.y.0 + dy.0)).pointer_moved(
                    timestamp.0,
                );
                &&& final(self)@ == o.state
                &&& final(actions)@ == old(actions)@ + o.actions
            }),
            state_wf(final(self)@),
            acyclic(final(self)@.compositor.surfaces),
    {
        let x = saturate(self.seat.pointer.x.0 as i64 + dx.0 as i64);
        let y = saturate(self.seat.pointer.y.0 as i64 + dy.0 as i64);
        self.pointer_motion_absolute(timestamp, x, y, actions);
    }

    /// Passes a key on to the window on top.
    pub fn forward_key(
        &mut self,
        key: u32,
        timestamp: InputTimestamp,
        pressed: bool,
        mods: ModsState,
        actions: &mut Vec<Action>,
    )
        requires
            state_wf(old(self)@),
        ensures
            ({
                let o = old(self)@.key_forwarded(key, timestamp.0, pressed, mods);
                &&& final(self)@ == o.state
                &&& final(actions)@ == old(actions)@ + o.actions
            }),
            state_wf(final(self)@),
            final(self)@.compositor == old(self)@.compositor,
    {
        let ghost st = self@;
        let ghost a0 = actions@;
        if let Some(i) = self.focus_stack.top() {
            assert(shown_toplevel(st.compositor.surfaces, st.focus_stack[st.focus_stack.len() - 1] as int));
            let wl = self.compositor.surfaces.get(i).wl;
            self.seat.kbd_focus_surface(Some(wl), actions);
        } else {
            assert(actions@ =~= a0 + st.top_focused().actions);
        }
        self.seat.keyboard.update_key(key, timestamp, pressed, mods, &self.seat.clients.keyboards, actions);
        assert(actions@ =~= a0 + st.key_forwarded(key, timestamp.0, pressed, mods).actions);
    }

    /// Brings a window to the top and gives it the keyboard focus.
    pub fn focus_i(&mut self, k: usize, actions: &mut Vec<Action>)
        requires
            state_wf(old(self)@),
            k < old(self)@.focus_stack.len(),
        ensures
            final(self)@ == old(self)@.window_raised(k as int).state,
            final(actions)@ == old(actions)@ + old(self)@.window_raised(k as int).actions,
            state_wf(final(self)@),
    {
        let ghost st = self@;
        let ghost s = st.compositor.surfaces;
        proof {
            law_raised(st.focus_stack, k as int);
            assert(shown_toplevel(s, st.focus_stack[k as int] as int));
        }
        let i: usize = self.focus_stack.raise(k);
        let wl = self.compositor.surfaces.get(i).wl;
        self.seat.kbd_focus_surface(Some(wl), actions);
        proof {
            let stack = self@.focus_stack;
            assert forall|l: int| 0 <= l < stack.len() implies shown_toplevel(s, #[trigger] stack[l] as int) by {
                assert(stack.contains(stack[l]));
                let m = choose|m: int| 0 <= m < st.focus_stack.len() && st.focus_stack[m] == stack[l];
                assert(shown_toplevel(s, st.focus_stack[m] as int));
            }
            assert forall|j: int| 0 <= j < s.len() && #[trigger] shown_toplevel(s, j) implies stack.contains(
                j as usize,
            ) by {
                assert(st.focus_stack.contains(j as usize));
            }
        }
    }

    /// Handles a button that goes down.
    pub fn pointer_btn_press(&mut self, btn: u32, timestamp: InputTimestamp, alt: bool, actions: &mut Vec<Action>)
        requires
            state_wf(old(self)@),
            acyclic(old(self)@.compositor.surfaces),
            popups_placed(old(self)@.compositor.surfaces),
        ensures
            ({
                let o = old(self)@.button_pressed(btn, timestamp.0, alt);
                &&& final(self)@ == o.state
                &&& final(actions)@ == old(actions)@ + o.actions
            }),
            state_wf(final(self)@),
            final(self)@.compositor == old(self)@.compositor,
    {
        let ghost st0 = self@;
        let ghost s = st0.compositor.surfaces;
        let ghost a0 = actions@;
        let grab = alt && (btn == BTN_LEFT || btn == BTN_RIGHT);
        self.seat.pointer.update_button(btn, timestamp, true, !grab, &self.seat.clients.pointers, actions);
        if !grab {
            return ;
        }
        let ghost st1 = self@;
        proof {
            assert(actions@ =~= a0);
            assert(self.focus_stack@.len() <= usize::MAX) by {
                self.focus_stack.lemma_len();
            }
            lemma_stack_hit(st1.focus_stack, s, st1.seat.pointer.x.0 as i64, st1.seat.pointer.y.0 as i64);
        }
        let px = self.seat.pointer.x;
        let py = self.seat.pointer.y;
        match self.focus_stack.surface_at(&self.compositor.surfaces, px, py) {
            None => {
                assert(actions@ =~= a0 + Seq::<Action>::empty());
            },
            Some(h) => {
                let k: usize = h.toplevel_idx;
                let i: usize = match self.focus_stack.get_i(k) {
                    Some(i) => i,
                    None => {
                        assert(false);
                        return ;
                    },
                };
                assert(shown_toplevel(s, st1.focus_stack[k as int] as int));
                assert(self.compositor.surfaces.list@[i as int]@ == s[i as int]);
                self.focus_i(k, actions);
                let surface = self.compositor.surfaces.get(i);
                let wl = surface.wl;
                match &surface.role {
                    SurfaceRole::Xdg(xdg) => match (&xdg.specific, xdg.effective_window_geometry) {
                        (SpecificRole::Toplevel(t), Some(g)) => {
                            if btn == BTN_LEFT {
                                self.seat.pointer.start_move(
                                    wl,
                                    t.wl,
                                    t.x,
                                    t.y,
                                    &self.seat.clients.pointers,
                                    actions,
                                );
                            } else {
                                self.seat.pointer.start_resize(
                                    ResizeEdge::BottomRight,
                                    wl,
                                    t.wl,
                                    g.width,
                                    g.height,
                                    &self.seat.clients.pointers,
                                    actions,
                                );
                            }
                        },
                        _ => {
                            assert(false);
                        },
                    },
                    _ => {
                        assert(false);
                    },
                }
                assert(actions@ =~= a0 + st0.button_pressed(btn, timestamp.0, alt).actions);
            },
        }
    }

    /// Handles a button that goes up.
    pub fn pointer_btn_release(&mut self, btn: u32, timestamp: InputTimestamp, actions: &mut Vec<Action>)
        requires
            state_wf(old(self)@),
        ensures
            ({
                let o = old(self)@.button_released(btn, timestamp.0);
                &&& final(self)@ == o.state
                &&& final(actions)@ == old(actions)@ + o.actions
            }),
            state_wf(final(self)@),
            final(self)@.compositor == old(self)@.compositor,
    {
        let ghost a0 = actions@;
        let busy = match &self.seat.pointer.state {
            PtrState::Moving { .. } => true,
            PtrState::Resizing { .. } => true,
            _ => false,
        };
        self.seat.pointer.update_button(btn, timestamp, false, !busy, &self.seat.clients.pointers, actions);
        if busy {
            self.seat.pointer.state = PtrState::Idle;
            assert(actions@ =~= a0 + Seq::<Action>::empty());
        }
    }

    /// Handles a turn of the wheel.
    pub fn pointer_axis_vertical(&self, timestamp: InputTimestamp, value: Fixed, actions: &mut Vec<Action>)
        ensures
            final(actions)@ == old(actions)@ + self@.seat.pointer.axis_events(
                self@.seat.clients.pointers,
                value,
                timestamp.0,
            ),
    {
        self.seat.pointer.axis_vertical(value, timestamp, &self.seat.clients.pointers, actions);
    }
}

/// Moving the pointer away and back while it moves a window puts the window back where it was.
pub proof fn law_move_there_and_back(
    st: StateV,
    surface: Handle,
    toplevel: Handle,
    tx: i32,
    ty: i32,
    x: Fixed,
    y: Fixed,
    time: u32,
)
    requires
        st.seat.pointer.state == (PtrStateV::Moving {
            surface,
            toplevel,
            ptr_start_x: st.seat.pointer.x,
            ptr_start_y: st.seat.pointer.y,
            toplevel_start_x: tx,
            toplevel_start_y: ty,
        }),
        is_the_toplevel(st.compositor.surfaces, surface.key as int, toplevel),
    ensures
        ({
            let away = st.with_pointer_at(x, y).pointer_moved(time).state;
            let back = away.with_pointer_at(st.seat.pointer.x, st.seat.pointer.y).pointer_moved(time).state;
            let t = back.compositor.surfaces[surface.key as int].xdg()->0.specific->Toplevel_0;
            t.x == tx && t.y == ty
        }),
{
}

} // verus!
