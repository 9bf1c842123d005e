//! What the events of a backend lead to.
use vstd::prelude::*;

use crate::backend::{BackendEvent, InputTimestamp, PointerId};
use crate::globals::surfaces::acyclic;
use crate::hit::popups_placed;
use crate::input::{key_action, key_meaning, saturated, InputOutcome, KeyAction};
use crate::protocol::{Action, Fixed};
use crate::seat::keyboard::{KeyboardV, ModsState};
use crate::state::{state_wf, State, StateV};

verus! {

/// What the keymap says of a key event.
#[derive(Debug, Clone, Copy, PartialEq, Eq, Structural)]
pub struct KeyInfo {
    /// The symbol of the key before the event.
    pub keysym: u32,
    /// The modifiers after the event.
    pub mods: ModsState,
    /// The index of the logo modifier.
    pub logo_index: u32,
    /// The index of the alt modifier.
    pub alt_index: u32,
}

/// What is left to do after an event of a backend.
#[derive(Debug, Clone, Copy, PartialEq, Eq, Structural)]
pub enum BackendOutcome {
    /// The backend is gone.
    ShutDown,
    /// The user asked to quit.
    Quit,
    /// A frame is to be drawn.
    DrawFrame,
    /// Another virtual terminal is to be shown.
    SwitchVt(u32),
    /// Nothing.
    Handled,
}

impl KeyboardV {
    /// Whether the modifier with an index is held down or latched.
    pub open spec fn holds(self, index: u32) -> bool {
        (self.mods.depressed | self.mods.latched) & (1u32 << index) != 0
    }
}

impl StateV {
    /// Whether an event can be handled.
    pub open spec fn can_take(self, event: BackendEvent) -> bool {
        match event {
            BackendEvent::PointerMotionAbsolute(..) => self.can_move_pointer(),
            BackendEvent::PointerMotionRelative(..) => self.can_move_pointer(),
            BackendEvent::PointerBtnPress(..) => popups_placed(self.compositor.surfaces),
            _ => true,
        }
    }

    /// What is left to do after an event.
    pub open spec fn event_outcome(self, event: BackendEvent, info: KeyInfo) -> BackendOutcome {
        match event {
            BackendEvent::ShutDown => BackendOutcome::ShutDown,
            BackendEvent::Frame => BackendOutcome::DrawFrame,
            BackendEvent::KeyPressed(..) => match key_meaning(info.keysym, self.seat.keyboard.holds(info.logo_index)) {
                KeyAction::Quit => BackendOutcome::Quit,
                KeyAction::SwitchVt(vt) => BackendOutcome::SwitchVt(vt),
                KeyAction::Forward => BackendOutcome::Handled,
            },
            _ => BackendOutcome::Handled,
        }
    }

    /// What an event does to the state, and what is sent.
    pub open spec fn event_taken(self, event: BackendEvent, info: KeyInfo) -> InputOutcome {
        let nothing = InputOutcome { state: self, actions: Seq::empty() };
        match event {
            BackendEvent::KeyPressed(_, time, key) => if self.event_outcome(event, info) is Handled {
                self.key_forwarded(key, time.0, true, info.mods)
            } else {
                nothing
            },
            BackendEvent::KeyReleased(_, time, key) => self.key_forwarded(key, time.0, false, info.mods),
            BackendEvent::PointerMotionAbsolute(_, time, x, y) => self.with_pointer_at(x, y).pointer_moved(time.0),
            BackendEvent::PointerMotionRelative(_, time, dx, dy) => {
                let p = self.seat.pointer;
                self.with_pointer_at(saturated(p.x.0 + dx.0), saturated(p.y.0 + dy.0)).pointer_moved(time.0)
            },
            BackendEvent::PointerBtnPress(_, time, btn) => self.button_pressed(
                btn,
                time.0,
                self.seat.keyboard.holds(info.alt_index),
            ),
            BackendEvent::PointerBtnRelease(_, time, btn) => self.button_released(btn, time.0),
            BackendEvent::PointerAxisVertial(_, time, value) => InputOutcome {
                state: self,
                actions: self.seat.pointer.axis_events(self.seat.clients.pointers, value, time.0),
            },
            _ => nothing,
        }
    }
}

impl State {
    /// Whether an event can be handled.
    pub fn can_take_event(&self, event: BackendEvent) -> (r: bool)
        requires
            state_wf(self@),
        ensures
            r == self@.can_take(event),
    {
        match event {
            BackendEvent::PointerMotionAbsolute(..) => self.pointer_can_move(),
            BackendEvent::PointerMotionRelative(..) => self.pointer_can_move(),
            BackendEvent::PointerBtnPress(..) => self.compositor.surfaces.popups_have_places(),
            _ => true,
        }
    }

    /// Handles an event of the backend.
    pub fn poll_backend(&mut self, event: BackendEvent, info: KeyInfo, actions: &mut Vec<Action>) -> (r: BackendOutcome)
        requires
            state_wf(old(self)@),
            acyclic(old(self)@.compositor.surfaces),
            old(self)@.can_take(event),
            info.logo_index < 32,
            info.alt_index < 32,
        ensures
            r == old(self)@.event_outcome(event, info),
            final(self)@ == old(self)@.event_taken(event, info).state,
            final(actions)@ == old(actions)@ + old(self)@.event_taken(event, info).actions,
            state_wf(final(self)@),
            acyclic(final(self)@.compositor.surfaces),
    {
        let ghost a0 = actions@;
        assert(a0 + Seq::<Action>::empty() =~= a0);
        match event {
            BackendEvent::ShutDown => BackendOutcome::ShutDown,
            BackendEvent::Frame => BackendOutcome::DrawFrame,
            BackendEvent::KeyPressed(_, time, key) => {
                let mask = self.seat.keyboard.get_mods(info.logo_index, info.alt_index);
                match key_action(info.keysym, mask.logo) {
                    KeyAction::Quit => BackendOutcome::Quit,
                    KeyAction::SwitchVt(vt) => BackendOutcome::SwitchVt(vt),
                    KeyAction::Forward => {
                        self.forward_key(key, time, true, info.mods, actions);
                        BackendOutcome::Handled
                    },
                }
            },
            BackendEvent::KeyReleased(_, time, key) => {
                self.forward_key(key, time, false, info.mods, actions);
                BackendOutcome::Handled
            },
            BackendEvent::PointerMotionAbsolute(_, time, x, y) => {
                self.pointer_motion_absolute(time, x, y, actions);
                BackendOutcome::Handled
            },
            BackendEvent::PointerMotionRelative(_, time, dx, dy) => {
                self.pointer_motion_relative(time, dx, dy, actions);
                BackendOutcome::Handled
            },
            BackendEvent::PointerBtnPress(_, time, btn) => {
                let mask = self.seat.keyboard.get_mods(info.logo_index, info.alt_index);
                self.pointer_btn_press(btn, time, mask.alt, actions);
                BackendOutcome::Handled
            },
            BackendEvent::PointerBtnRelease(_, time, btn) => {
                self.pointer_btn_release(btn, time, actions);
                BackendOutcome::Handled
            },
            BackendEvent::PointerAxisVertial(_, time, value) => {
                self.pointer_axis_vertical(time, value, actions);
                BackendOutcome::Handled
            },
            _ => BackendOutcome::Handled,
        }
    }
}

/// A relative motion moves the pointer by as much, as far as there are coordinates, and an absolute one to the place.
/// All that comes of it is what comes of the pointer being there.
pub proof fn law_motion_moves_the_pointer(
    st: StateV,
    id: PointerId,
    time: InputTimestamp,
    x: Fixed,
    y: Fixed,
    info: KeyInfo,
)
    ensures
        ({
            let p = st.seat.pointer;
            let a = st.event_taken(BackendEvent::PointerMotionAbsolute(id, time, x, y), info).state.seat.pointer;
            let r = st.event_taken(BackendEvent::PointerMotionRelative(id, time, x, y), info).state.seat.pointer;
            &&& a.x == x && a.y == y
            &&& i32::MIN <= p.x.0 + x.0 <= i32::MAX ==> r.x.0 == p.x.0 + x.0
            &&& p.x.0 + x.0 > i32::MAX ==> r.x.0 == i32::MAX
            &&& p.x.0 + x.0 < i32::MIN ==> r.x.0 == i32::MIN
            &&& i32::MIN <= p.y.0 + y.0 <= i32::MAX ==> r.y.0 == p.y.0 + y.0
            &&& p.y.0 + y.0 > i32::MAX ==> r.y.0 == i32::MAX
            &&& p.y.0 + y.0 < i32::MIN ==> r.y.0 == i32::MIN
        }),
{
}

} // verus!
