//! The pointer of the seat.
use vstd::prelude::*;

use crate::backend::InputTimestamp;
use crate::protocol::{Action, Fixed, Handle, PressState, Resource, ResizeEdge};
use crate::seat::events::DeviceEvent;

verus! {

/// The code of the left button.
pub const BTN_LEFT: u32 = 0x110;

/// The code of the right button.
pub const BTN_RIGHT: u32 = 0x111;

/// The pointer as the surface under it knows it.
#[derive(Debug)]
pub struct SurfacePointer {
    pub surface: Handle,
    pub pressed_buttons: Vec<u32>,
    pub x: Fixed,
    pub y: Fixed,
}

/// What the pointer does.
#[derive(Debug)]
pub enum PtrState {
    Idle,
    Entered(SurfacePointer),
    Moving {
        surface: Handle,
        toplevel: Handle,
        ptr_start_x: Fixed,
        ptr_start_y: Fixed,
        toplevel_start_x: i32,
        toplevel_start_y: i32,
    },
    Resizing {
        surface: Handle,
        toplevel: Handle,
        edge: ResizeEdge,
        ptr_start_x: Fixed,
        ptr_start_y: Fixed,
        toplevel_start_width: u32,
        toplevel_start_height: u32,
    },
}

/// What a [`PtrState`] says.
#[verifier::ext_equal]
pub enum PtrStateV {
    Idle,
    Entered { surface: Handle, pressed_buttons: Seq<u32>, x: Fixed, y: Fixed },
    Moving {
        surface: Handle,
        toplevel: Handle,
        ptr_start_x: Fixed,
        ptr_start_y: Fixed,
        toplevel_start_x: i32,
        toplevel_start_y: i32,
    },
    Resizing {
        surface: Handle,
        toplevel: Handle,
        edge: ResizeEdge,
        ptr_start_x: Fixed,
        ptr_start_y: Fixed,
        toplevel_start_width: u32,
        toplevel_start_height: u32,
    },
}

impl View for PtrState {
    type V = PtrStateV;

    open spec fn view(&self) -> PtrStateV {
        match *self {
            PtrState::Idle => PtrStateV::Idle,
            PtrState::Entered(sp) => PtrStateV::Entered {
                surface: sp.surface,
                pressed_buttons: sp.pressed_buttons@,
                x: sp.x,
                y: sp.y,
            },
            PtrState::Moving {
                surface,
                toplevel,
                ptr_start_x,
                ptr_start_y,
                toplevel_start_x,
                toplevel_start_y,
            } => PtrStateV::Moving {
                surface,
                toplevel,
                ptr_start_x,
                ptr_start_y,
                toplevel_start_x,
                toplevel_start_y,
            },
            PtrState::Resizing {
                surface,
                toplevel,
                edge,
                ptr_start_x,
                ptr_start_y,
                toplevel_start_width,
                toplevel_start_height,
            } => PtrStateV::Resizing {
                surface,
                toplevel,
                edge,
                ptr_start_x,
                ptr_start_y,
                toplevel_start_width,
                toplevel_start_height,
            },
        }
    }
}

impl PtrStateV {
    /// The surface that the pointer is on, or whose window it moves or resizes.
    pub open spec fn surface(self) -> Option<Handle> {
        match self {
            PtrStateV::Idle => None,
            PtrStateV::Entered { surface, .. } => Some(surface),
            PtrStateV::Moving { surface, .. } => Some(surface),
            PtrStateV::Resizing { surface, .. } => Some(surface),
        }
    }

    /// What is sent when the pointer leaves the surface that it is on.
    pub open spec fn leave_events(self, pointers: Seq<Resource>) -> Seq<Action> {
        match self {
            PtrStateV::Entered { surface, .. } => DeviceEvent::PointerLeave { surface }.sent_to_client(
                pointers,
                surface.client,
            ),
            _ => Seq::empty(),
        }
    }
}

/// The pointer of the seat.
#[derive(Debug)]
pub struct Pointer {
    pub state: PtrState,
    pub x: Fixed,
    pub y: Fixed,
    pub pressed_buttons: Vec<u32>,
}

/// What a [`Pointer`] says.
#[verifier::ext_equal]
pub struct PointerV {
    pub state: PtrStateV,
    pub x: Fixed,
    pub y: Fixed,
    pub pressed_buttons: Seq<u32>,
}

impl View for Pointer {
    type V = PointerV;

    open spec fn view(&self) -> PointerV {
        PointerV { state: self.state@, x: self.x, y: self.y, pressed_buttons: self.pressed_buttons@ }
    }
}

/// The buttons that are left when one is released.
pub open spec fn released(buttons: Seq<u32>, btn: u32) -> Seq<u32>
    decreases buttons.len(),
{
    if buttons.len() == 0 {
        Seq::empty()
    } else {
        let before = released(buttons.drop_last(), btn);
        if buttons.last() == btn {
            before
        } else {
            before.push(buttons.last())
        }
    }
}

/// A button that was released is not held any more; all others are as before.
pub proof fn law_released(buttons: Seq<u32>, btn: u32, other: u32)
    ensures
        released(buttons, btn).contains(other) <==> buttons.contains(other) && other != btn,
    decreases buttons.len(),
{
    let kept = released(buttons, btn);
    if buttons.len() > 0 {
        law_released(buttons.drop_last(), btn, other);
        let before = released(buttons.drop_last(), btn);
        if buttons.contains(other) {
            let k = choose|k: int| 0 <= k < buttons.len() && buttons[k] == other;
            if k < buttons.len() - 1 {
                assert(buttons.drop_last()[k] == other);
            }
        }
        if before.contains(other) {
            let k = choose|k: int| 0 <= k < before.len() && before[k] == other;
            assert(kept[k] == other);
            let l = choose|l: int| 0 <= l < buttons.drop_last().len() && buttons.drop_last()[l] == other;
            assert(buttons[l] == other);
        }
        if buttons.last() == other && other != btn {
            assert(kept[kept.len() - 1] == other);
        }
        if kept.contains(other) && !before.contains(other) {
            let k = choose|k: int| 0 <= k < kept.len() && kept[k] == other;
            if k < before.len() {
                assert(before[k] == other);
            }
            assert(buttons[buttons.len() - 1] == other);
        }
    }
}

fn release(buttons: &mut Vec<u32>, btn: u32)
    ensures
        final(buttons)@ == released(old(buttons)@, btn),
{
    let mut kept: Vec<u32> = Vec::new();
    let mut i: usize = 0;
    assert(buttons@.take(0) =~= Seq::<u32>::empty());
    while i < buttons.len()
        invariant
            i <= buttons.len(),
            buttons@ == old(buttons)@,
            kept@ == released(buttons@.take(i as int), btn),
        decreases buttons.len() - i,
    {
        assert(buttons@.take(i + 1).drop_last() =~= buttons@.take(i as int));
        if buttons[i] != btn {
            kept.push(buttons[i]);
        }
        i = i + 1;
    }
    assert(buttons@.take(i as int) =~= buttons@);
    *buttons = kept;
}

fn holds(buttons: &Vec<u32>, btn: u32) -> (r: bool)
    ensures
        r == buttons@.contains(btn),
{
    let mut i: usize = 0;
    while i < buttons.len()
        invariant
            i <= buttons.len(),
            forall|k: int| 0 <= k < i ==> buttons@[k] != btn,
        decreases buttons.len() - i,
    {
        if buttons[i] == btn {
            return true;
        }
        i = i + 1;
    }
    false
}

impl PointerV {
    /// What a new pointer object is told: that it is on a surface of its client, if it is.
    pub open spec fn init_events(self, pointer: Resource) -> Seq<Action> {
        match self.state {
            PtrStateV::Entered { surface, x, y, .. } if surface.client == pointer.handle.client => seq![
                Action::PointerEnter { pointer: pointer.handle, serial: 1, surface, x, y },
            ],
            _ => Seq::empty(),
        }
    }

    /// The pointer after it left the surface that it was on.
    pub open spec fn left(self) -> PointerV {
        PointerV { state: PtrStateV::Idle, ..self }
    }

    /// The pointer after it moved to a point of a surface.
    pub open spec fn forwarded(self, surface: Handle, x: Fixed, y: Fixed) -> PointerV {
        if self.state is Entered && self.state.surface() == Some(surface) {
            self
        } else {
            PointerV { state: PtrStateV::Entered { surface, pressed_buttons: Seq::empty(), x, y }, ..self }
        }
    }

    /// What is sent when the pointer moves to a point of a surface: motion on the surface that it
    /// is on already, else leaving the old surface and entering the new one.
    pub open spec fn forward_events(
        self,
        pointers: Seq<Resource>,
        surface: Handle,
        time: u32,
        x: Fixed,
        y: Fixed,
    ) -> Seq<Action> {
        if self.state is Entered && self.state.surface() == Some(surface) {
            DeviceEvent::PointerMotion { time, x, y }.sent_to_client(pointers, surface.client)
        } else {
            self.state.leave_events(pointers) + DeviceEvent::PointerEnter { surface, x, y }.sent_to_client(
                pointers,
                surface.client,
            )
        }
    }

    /// The pointer after a button went down or up. The surface under the pointer learns of it where
    /// `forward` is set.
    pub open spec fn button_updated(self, btn: u32, pressed: bool, forward: bool) -> PointerV {
        PointerV {
            pressed_buttons: if pressed {
                self.pressed_buttons.push(btn)
            } else {
                released(self.pressed_buttons, btn)
            },
            state: match self.state {
                PtrStateV::Entered { surface, pressed_buttons, x, y } if forward => PtrStateV::Entered {
                    surface,
                    pressed_buttons: if pressed && !pressed_buttons.contains(btn) {
                        pressed_buttons.push(btn)
                    } else if !pressed && pressed_buttons.contains(btn) {
                        released(pressed_buttons, btn)
                    } else {
                        pressed_buttons
                    },
                    x,
                    y,
                },
                s => s,
            },
            ..self
        }
    }

    /// What is sent when a button goes down or up: the surface under the pointer is told of a press
    /// that it does not know of yet, and of the release of a press that it knows of.
    pub open spec fn button_events(
        self,
        pointers: Seq<Resource>,
        btn: u32,
        time: u32,
        pressed: bool,
        forward: bool,
    ) -> Seq<Action> {
        match self.state {
            PtrStateV::Entered { surface, pressed_buttons, .. } if forward && pressed != pressed_buttons.contains(
                btn,
            ) => DeviceEvent::PointerButton {
                time,
                button: btn,
                state: if pressed {
                    PressState::Pressed
                } else {
                    PressState::Released
                },
            }.sent_to_client(pointers, surface.client),
            _ => Seq::empty(),
        }
    }

    /// What is sent when the wheel turns.
    pub open spec fn axis_events(self, pointers: Seq<Resource>, value: Fixed, time: u32) -> Seq<Action> {
        match self.state {
            PtrStateV::Entered { surface, .. } if value.0 != 0 => DeviceEvent::PointerAxis { time, value }.sent_to_client(
                pointers,
                surface.client,
            ),
            _ => Seq::empty(),
        }
    }
}

impl Pointer {
    /// A pointer in the upper left corner.
    pub fn new() -> (r: Self)
        ensures
            r@ == (PointerV { state: PtrStateV::Idle, x: Fixed(0), y: Fixed(0), pressed_buttons: Seq::empty() }),
    {
        Self { state: PtrState::Idle, x: Fixed(0), y: Fixed(0), pressed_buttons: Vec::new() }
    }

    /// Tells a new pointer object if it is on a surface of its client.
    pub fn init_new_resource(&self, pointer: Resource, actions: &mut Vec<Action>)
        ensures
            final(actions)@ == old(actions)@ + self@.init_events(pointer),
    {
        let ghost before = actions@;
        if let PtrState::Entered(sp) = &self.state {
            if sp.surface.client == pointer.handle.client {
                actions.push(
                    Action::PointerEnter { pointer: pointer.handle, serial: 1, surface: sp.surface, x: sp.x, y: sp.y },
                );
            }
        }
        assert(actions@ =~= before + self@.init_events(pointer));
    }

    /// Leaves the surface that the pointer is on, or stops moving or resizing.
    pub fn leave_any_surface(&mut self, pointers: &Vec<Resource>, actions: &mut Vec<Action>)
        ensures
            final(self)@ == old(self)@.left(),
            final(actions)@ == old(actions)@ + old(self)@.state.leave_events(pointers@),
    {
        let ghost before = actions@;
        if let PtrState::Entered(sp) = &self.state {
            DeviceEvent::PointerLeave { surface: sp.surface }.send_to_client(pointers, sp.surface.client, actions);
        } else {
            assert(actions@ =~= before + old(self)@.state.leave_events(pointers@));
        }
        self.state = PtrState::Idle;
    }

    /// Moves the pointer to a point of a surface.
    pub fn forward_pointer(
        &mut self,
        surface: Handle,
        timestamp: InputTimestamp,
        x: Fixed,
        y: Fixed,
        pointers: &Vec<Resource>,
        actions: &mut Vec<Action>,
    )
        ensures
            final(self)@ == old(self)@.forwarded(surface, x, y),
            final(actions)@ == old(actions)@ + old(self)@.forward_events(pointers@, surface, timestamp.0, x, y),
    {
        let ghost before = actions@;
        if let PtrState::Entered(sp) = &self.state {
            if surface == sp.surface {
                DeviceEvent::PointerMotion { time: timestamp.get(), x, y }.send_to_client(
                    pointers,
                    surface.client,
                    actions,
                );
                return ;
            }
            DeviceEvent::PointerLeave { surface: sp.surface }.send_to_client(pointers, sp.surface.client, actions);
        }
        self.state = PtrState::Entered(SurfacePointer { surface, pressed_buttons: Vec::new(), x, y });
        DeviceEvent::PointerEnter { surface, x, y }.send_to_client(pointers, surface.client, actions);
        assert(actions@ =~= before + old(self)@.forward_events(pointers@, surface, timestamp.0, x, y));
    }

    /// Notes that a button went down or up.
    pub fn update_button(
        &mut self,
        btn: u32,
        timestamp: InputTimestamp,
        pressed: bool,
        forward: bool,
        pointers: &Vec<Resource>,
        actions: &mut Vec<Action>,
    )
        ensures
            final(self)@ == old(self)@.button_updated(btn, pressed, forward),
            final(actions)@ == old(actions)@ + old(self)@.button_events(pointers@, btn, timestamp.0, pressed, forward),
    {
        let ghost before = actions@;
        if pressed {
            self.pressed_buttons.push(btn);
        } else {
            release(&mut self.pressed_buttons, btn);
        }
        if forward {
            if let PtrState::Entered(sp) = &mut self.state {
                let held = holds(&sp.pressed_buttons, btn);
                if pressed && !held {
                    sp.pressed_buttons.push(btn);
                    DeviceEvent::PointerButton {
                        time: timestamp.get(),
                        button: btn,
                        state: PressState::Pressed,
                    }.send_to_client(pointers, sp.surface.client, actions);
                } else if !pressed && held {
                    release(&mut sp.pressed_buttons, btn);
                    DeviceEvent::PointerButton {
                        time: timestamp.get(),
                        button: btn,
                        state: PressState::Released,
                    }.send_to_client(pointers, sp.surface.client, actions);
                }
            }
        }
        assert(actions@ =~= before + old(self)@.button_events(pointers@, btn, timestamp.0, pressed, forward));
    }

    /// The number of buttons that are held.
    pub fn number_of_pressed_buttons(&self) -> (r: usize)
        ensures
            r == self@.pressed_buttons.len(),
    {
        self.pressed_buttons.len()
    }

    /// Notes that the wheel turned.
    pub fn axis_vertical(
        &self,
        value: Fixed,
        timestamp: InputTimestamp,
        pointers: &Vec<Resource>,
        actions: &mut Vec<Action>,
    )
        ensures
            final(actions)@ == old(actions)@ + self@.axis_events(pointers@, value, timestamp.0),
    {
        let ghost before = actions@;
        if let Some(surface) = self.get_focused_surface() {
            if value.0 != 0 {
                DeviceEvent::PointerAxis { time: timestamp.get(), value }.send_to_client(
                    pointers,
                    surface.client,
                    actions,
                );
                return ;
            }
        }
        assert(actions@ =~= before + self@.axis_events(pointers@, value, timestamp.0));
    }

    /// Begins to move a window that is at `(x, y)`.
    pub fn start_move(
        &mut self,
        surface: Handle,
        toplevel: Handle,
        x: i32,
        y: i32,
        pointers: &Vec<Resource>,
        actions: &mut Vec<Action>,
    )
        ensures
            final(self)@ == (PointerV {
                state: PtrStateV::Moving {
                    surface,
                    toplevel,
                    ptr_start_x: old(self)@.x,
                    ptr_start_y: old(self)@.y,
                    toplevel_start_x: x,
                    toplevel_start_y: y,
                },
                ..old(self)@
            }),
            final(actions)@ == old(actions)@ + old(self)@.state.leave_events(pointers@),
    {
        self.leave_any_surface(pointers, actions);
        self.state = PtrState::Moving {
            surface,
            toplevel,
            ptr_start_x: self.x,
            ptr_start_y: self.y,
            toplevel_start_x: x,
            toplevel_start_y: y,
        };
    }

    /// Begins to resize a window by dragging an edge.
    pub fn start_resize(
        &mut self,
        edge: ResizeEdge,
        surface: Handle,
        toplevel: Handle,
        width: u32,
        height: u32,
        pointers: &Vec<Resource>,
        actions: &mut Vec<Action>,
    )
        ensures
            final(self)@ == (PointerV {
                state: PtrStateV::Resizing {
                    surface,
                    toplevel,
                    edge,
                    ptr_start_x: old(self)@.x,
                    ptr_start_y: old(self)@.y,
                    toplevel_start_width: width,
                    toplevel_start_height: height,
                },
                ..old(self)@
            }),
            final(actions)@ == old(actions)@ + old(self)@.state.leave_events(pointers@),
    {
        self.leave_any_surface(pointers, actions);
        self.state = PtrState::Resizing {
            surface,
            toplevel,
            edge,
            ptr_start_x: self.x,
            ptr_start_y: self.y,
            toplevel_start_width: width,
            toplevel_start_height: height,
        };
    }

    /// The surface that the pointer is on.
    pub fn get_focused_surface(&self) -> (r: Option<Handle>)
        ensures
            r == match self@.state {
                PtrStateV::Entered { surface, .. } => Some(surface),
                _ => None,
            },
    {
        match &self.state {
            PtrState::Entered(sp) => Some(sp.surface),
            _ => None,
        }
    }

    /// Lets go of a surface that is no longer shown.
    pub fn surface_unmapped(&mut self, surface: Handle, pointers: &Vec<Resource>, actions: &mut Vec<Action>)
        ensures
            final(self)@ == if old(self)@.state.surface() == Some(surface) {
                old(self)@.left()
            } else {
                old(self)@
            },
            final(actions)@ == old(actions)@ + if old(self)@.state.surface() == Some(surface) {
                old(self)@.state.leave_events(pointers@)
            } else {
                Seq::empty()
            },
    {
        let ghost before = actions@;
        let should_leave = match &self.state {
            PtrState::Idle => false,
            PtrState::Entered(sp) => sp.surface == surface,
            PtrState::Moving { surface: s, .. } => *s == surface,
            PtrState::Resizing { surface: s, .. } => *s == surface,
        };
        if should_leave {
            self.leave_any_surface(pointers, actions);
        } else {
            assert(actions@ =~= before + Seq::<Action>::empty());
        }
    }
}

/// A button that goes down or up, and whether the surface under the pointer is to learn of it.
pub struct ButtonCall {
    pub btn: u32,
    pub time: u32,
    pub pressed: bool,
    pub forward: bool,
}

impl ButtonCall {
    /// What happens to the button.
    pub open spec fn change(self) -> PressState {
        if self.pressed {
            PressState::Pressed
        } else {
            PressState::Released
        }
    }
}

impl PointerV {
    /// Whether the surface under the pointer is told of a button.
    pub open spec fn tells(self, call: ButtonCall) -> bool {
        self.state is Entered && call.forward && call.pressed != self.state->Entered_pressed_buttons.contains(call.btn)
    }

    /// What is sent for a button.
    pub open spec fn call_events(self, pointers: Seq<Resource>, call: ButtonCall) -> Seq<Action> {
        self.button_events(pointers, call.btn, call.time, call.pressed, call.forward)
    }

    /// The pointer after buttons went down and up.
    pub open spec fn after_calls(self, calls: Seq<ButtonCall>) -> PointerV
        decreases calls.len(),
    {
        if calls.len() == 0 {
            self
        } else {
            let c = calls.last();
            self.after_calls(calls.drop_last()).button_updated(c.btn, c.pressed, c.forward)
        }
    }

    /// What the surface under the pointer is told of one button, while buttons go down and up.
    pub open spec fn told(self, calls: Seq<ButtonCall>, btn: u32) -> Seq<PressState>
        decreases calls.len(),
    {
        if calls.len() == 0 {
            Seq::empty()
        } else {
            let before = self.told(calls.drop_last(), btn);
            let c = calls.last();
            if c.btn == btn && self.after_calls(calls.drop_last()).tells(c) {
                before.push(c.change())
            } else {
                before
            }
        }
    }
}

/// However buttons go down and up while the pointer stays on a surface, what the surface is told of a
/// button that it did not know to be held is a press, a release, a press and so on. For each change it
/// is told of, one event is sent to the pointers of its client; for any other change none is sent.
/// A button that went up last is not held any more.
pub proof fn law_presses_and_releases_alternate(
    p: PointerV,
    pointers: Seq<Resource>,
    calls: Seq<ButtonCall>,
    btn: u32,
)
    requires
        p.state is Entered,
        !p.state->Entered_pressed_buttons.contains(btn),
    ensures
        forall|k: int|
            0 <= k < p.told(calls, btn).len() ==> #[trigger] p.told(calls, btn)[k] == if k % 2 == 0 {
                PressState::Pressed
            } else {
                PressState::Released
            },
        forall|i: int|
            0 <= i < calls.len() ==> #[trigger] p.after_calls(calls.take(i)).call_events(pointers, calls[i]) == if p.after_calls(
                calls.take(i),
            ).tells(calls[i]) {
                DeviceEvent::PointerButton {
                    time: calls[i].time,
                    button: calls[i].btn,
                    state: calls[i].change(),
                }.sent_to_client(pointers, p.state->Entered_surface.client)
            } else {
                Seq::empty()
            },
        p.after_calls(calls).state is Entered,
        p.after_calls(calls).state.surface() == p.state.surface(),
        calls.len() > 0 && !calls.last().pressed ==> !p.after_calls(calls).pressed_buttons.contains(calls.last().btn),
{
    lemma_held_since(p, calls, btn);
    assert forall|i: int| 0 <= i < calls.len() implies #[trigger] p.after_calls(calls.take(i)).call_events(
        pointers,
        calls[i],
    ) == if p.after_calls(calls.take(i)).tells(calls[i]) {
        DeviceEvent::PointerButton { time: calls[i].time, button: calls[i].btn, state: calls[i].change() }.sent_to_client(
            pointers,
            p.state->Entered_surface.client,
        )
    } else {
        Seq::<Action>::empty()
    } by {
        lemma_held_since(p, calls.take(i), btn);
    }
    if calls.len() > 0 {
        let before = p.after_calls(calls.drop_last());
        law_released(before.pressed_buttons, calls.last().btn, calls.last().btn);
    }
}

/// A surface that was told of a button an odd number of times knows it to be held.
proof fn lemma_held_since(p: PointerV, calls: Seq<ButtonCall>, btn: u32)
    requires
        p.state is Entered,
        !p.state->Entered_pressed_buttons.contains(btn),
    ensures
        p.after_calls(calls).state is Entered,
        p.after_calls(calls).state.surface() == p.state.surface(),
        p.after_calls(calls).state->Entered_pressed_buttons.contains(btn) == (p.told(calls, btn).len() % 2 == 1),
        forall|k: int|
            0 <= k < p.told(calls, btn).len() ==> #[trigger] p.told(calls, btn)[k] == if k % 2 == 0 {
                PressState::Pressed
            } else {
                PressState::Released
            },
    decreases calls.len(),
{
    if calls.len() > 0 {
        let rest = calls.drop_last();
        lemma_held_since(p, rest, btn);
        let c = calls.last();
        let held = p.after_calls(rest).state->Entered_pressed_buttons;
        law_released(held, c.btn, btn);
        assert(held.push(c.btn)[held.len() as int] == c.btn);
        if held.contains(btn) {
            let k = choose|k: int| 0 <= k < held.len() && held[k] == btn;
            assert(held.push(c.btn)[k] == btn);
        }
        if held.push(c.btn).contains(btn) && c.btn != btn {
            let k = choose|k: int| 0 <= k < held.push(c.btn).len() && held.push(c.btn)[k] == btn;
            assert(held[k] == btn);
        }
    }
}

/// The buttons that are held when one is released are all others, in the order in which they were pressed.
pub proof fn law_released_in_order(buttons: Seq<u32>, btn: u32)
    ensures
        released(buttons, btn) == buttons.filter(|b: u32| b != btn),
    decreases buttons.len(),
{
    reveal(Seq::filter);
    if buttons.len() > 0 {
        law_released_in_order(buttons.drop_last(), btn);
    }
}

} // verus!
