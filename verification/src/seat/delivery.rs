//! Who hears of what is done with the keyboard and the pointer.
use vstd::prelude::*;

use crate::client::ClientId;
use crate::protocol::{Action, Fixed, Handle, PressState, Resource};
use crate::seat::events::{law_events_stay_with_client, DeviceEvent};
use crate::seat::keyboard::{
    cancel_events, mime_events, selection_events, selection_offers, selection_told, DataOffer, DataOffersV,
    DataSourceV, KeyboardV, ModsState,
};
use crate::seat::pointer::{law_released, released, PointerV, PtrStateV};
use crate::seat::SeatV;

verus! {

/// The objects of a client in a list, in order.
pub open spec fn of_client(list: Seq<Resource>, client: ClientId) -> Seq<Resource> {
    list.filter(|r: Resource| r.handle.client == client)
}

/// Picks out what tells keyboards that a key went down or up.
pub open spec fn keys() -> spec_fn(Action) -> bool {
    |a: Action| a is KeyboardKey
}

/// Picks out what tells keyboards which modifiers are in effect.
pub open spec fn modifiers() -> spec_fn(Action) -> bool {
    |a: Action| a is KeyboardModifiers
}

/// Picks out what tells keyboards that they have the focus.
pub open spec fn keyboard_enters() -> spec_fn(Action) -> bool {
    |a: Action| a is KeyboardEnter
}

/// Picks out what tells keyboards that they no longer have the focus.
pub open spec fn keyboard_leaves() -> spec_fn(Action) -> bool {
    |a: Action| a is KeyboardLeave
}

/// That a key went down or up, as a keyboard is told.
pub open spec fn key_said(time: u32, key: u32, state: PressState) -> spec_fn(Resource) -> Action {
    |r: Resource| Action::KeyboardKey { keyboard: r.handle, serial: 1, time, key, state }
}

/// Which modifiers are in effect, as a keyboard is told.
pub open spec fn modifiers_said(mods: ModsState) -> spec_fn(Resource) -> Action {
    |r: Resource|
        Action::KeyboardModifiers {
            keyboard: r.handle,
            serial: 1,
            depressed: mods.depressed,
            latched: mods.latched,
            locked: mods.locked,
            group: mods.group,
        }
}

/// That a surface has the focus, as a keyboard is told.
pub open spec fn keyboard_enter_said(surface: Handle) -> spec_fn(Resource) -> Action {
    |r: Resource| Action::KeyboardEnter { keyboard: r.handle, serial: 1, surface }
}

/// That a surface no longer has the focus, as a keyboard is told.
pub open spec fn keyboard_leave_said(surface: Handle) -> spec_fn(Resource) -> Action {
    |r: Resource| Action::KeyboardLeave { keyboard: r.handle, serial: 1, surface }
}

/// Picks out what tells pointers that they are on a surface.
pub open spec fn pointer_enters() -> spec_fn(Action) -> bool {
    |a: Action| a is PointerEnter
}

/// Picks out what tells pointers that they are no longer on a surface.
pub open spec fn pointer_leaves() -> spec_fn(Action) -> bool {
    |a: Action| a is PointerLeave
}

/// Picks out what tells pointers that they have moved on a surface.
pub open spec fn motions() -> spec_fn(Action) -> bool {
    |a: Action| a is PointerMotion
}

/// Picks out what tells pointers that a button went down or up.
pub open spec fn buttons() -> spec_fn(Action) -> bool {
    |a: Action| a is PointerButton
}

/// Picks out what tells pointers that the wheel has turned.
pub open spec fn turns() -> spec_fn(Action) -> bool {
    |a: Action| a is PointerAxis
}

/// That the pointer is on a surface, and where on it, as a pointer is told.
pub open spec fn pointer_enter_said(surface: Handle, x: Fixed, y: Fixed) -> spec_fn(Resource) -> Action {
    |r: Resource| Action::PointerEnter { pointer: r.handle, serial: 1, surface, x, y }
}

/// That the pointer is no longer on a surface, as a pointer is told.
pub open spec fn pointer_leave_said(surface: Handle) -> spec_fn(Resource) -> Action {
    |r: Resource| Action::PointerLeave { pointer: r.handle, serial: 1, surface }
}

/// Where on the surface the pointer has moved to, as a pointer is told.
pub open spec fn motion_said(time: u32, x: Fixed, y: Fixed) -> spec_fn(Resource) -> Action {
    |r: Resource| Action::PointerMotion { pointer: r.handle, time, x, y }
}

/// That a button went down or up, as a pointer is told.
pub open spec fn button_said(time: u32, button: u32, state: PressState) -> spec_fn(Resource) -> Action {
    |r: Resource| Action::PointerButton { pointer: r.handle, serial: 1, time, button, state }
}

/// How far the wheel has turned, as a pointer is told.
pub open spec fn turn_said(time: u32, value: Fixed) -> spec_fn(Resource) -> Action {
    |r: Resource| Action::PointerAxis { pointer: r.handle, time, value }
}

proof fn lemma_filter_none<A>(s: Seq<A>, f: spec_fn(A) -> bool)
    requires
        forall|k: int| 0 <= k < s.len() ==> !f(#[trigger] s[k]),
    ensures
        s.filter(f) == Seq::<A>::empty(),
    decreases s.len(),
{
    reveal(Seq::filter);
    if s.len() > 0 {
        assert forall|k: int| 0 <= k < s.drop_last().len() implies !f(#[trigger] s.drop_last()[k]) by {
            assert(s.drop_last()[k] == s[k]);
        }
        lemma_filter_none(s.drop_last(), f);
    } else {
        assert(s =~= Seq::<A>::empty());
    }
}

proof fn lemma_filter_one<A>(s: Seq<A>, j: int, f: spec_fn(A) -> bool)
    requires
        0 <= j < s.len(),
        f(s[j]),
        forall|k: int| 0 <= k < s.len() && k != j ==> !f(#[trigger] s[k]),
    ensures
        s.filter(f) == seq![s[j]],
    decreases s.len(),
{
    reveal(Seq::filter);
    let rest = s.drop_last();
    assert forall|k: int| 0 <= k < rest.len() && k != j implies !f(#[trigger] rest[k]) by {
        assert(rest[k] == s[k]);
    }
    if j < rest.len() {
        lemma_filter_one(rest, j, f);
    } else {
        lemma_filter_none(rest, f);
        assert(Seq::<A>::empty().push(s[j]) =~= seq![s[j]]);
    }
}

/// Whether an event holds, for each object that it is sent to, one action of some kind, in place `j`; with -1 for
/// `j` it holds none.
spec fn holds_one(
    event: DeviceEvent,
    f: spec_fn(Action) -> bool,
    g: spec_fn(Resource) -> Action,
    j: int,
) -> bool {
    forall|r: Resource|
        {
            let sent = #[trigger] event.sent_to(r);
            &&& -1 <= j < sent.len()
            &&& j >= 0 ==> sent[j] == g(r)
            &&& forall|k: int| 0 <= k < sent.len() ==> f(#[trigger] sent[k]) == (k == j)
        }
}

/// An event is told once to each object of a client, in order.
proof fn lemma_heard(
    event: DeviceEvent,
    list: Seq<Resource>,
    client: ClientId,
    f: spec_fn(Action) -> bool,
    g: spec_fn(Resource) -> Action,
    j: int,
)
    requires
        holds_one(event, f, g, j),
    ensures
        event.sent_to_client(list, client).filter(f) == if j >= 0 {
            of_client(list, client).map_values(g)
        } else {
            Seq::empty()
        },
    decreases list.len(),
{
    let p = |r: Resource| r.handle.client == client;
    reveal(Seq::filter);
    if list.len() > 0 {
        lemma_heard(event, list.drop_last(), client, f, g, j);
        let before = event.sent_to_client(list.drop_last(), client);
        assert(of_client(list, client) == list.filter(p));
        if list.last().handle.client == client {
            let sent = event.sent_to(list.last());
            Seq::filter_distributes_over_add(before, sent, f);
            if j >= 0 {
                lemma_filter_one(sent, j, f);
                assert(of_client(list, client) =~= of_client(list.drop_last(), client).push(list.last()));
                assert(event.sent_to_client(list, client).filter(f) =~= of_client(list, client).map_values(g));
            } else {
                lemma_filter_none(sent, f);
                assert(event.sent_to_client(list, client).filter(f) =~= Seq::empty());
            }
        }
    } else {
        assert(event.sent_to_client(list, client).filter(f) =~= Seq::empty());
        assert(of_client(list, client).map_values(g) =~= Seq::empty());
    }
}

proof fn lemma_selection_is_for_data_devices(
    selection: Option<DataSourceV>,
    devices: Seq<Resource>,
    client: ClientId,
    offers: DataOffersV,
    f: spec_fn(Action) -> bool,
)
    requires
        forall|a: Action|
            a is DataDeviceOffer || a is DataOfferMime || a is DataDeviceSelection ==> !(#[trigger] f(a)),
    ensures
        selection_told(selection, devices, client, offers).1.filter(f) == Seq::<Action>::empty(),
    decreases devices.len(),
{
    reveal(Seq::filter);
    if devices.len() > 0 {
        lemma_selection_is_for_data_devices(selection, devices.drop_last(), client, offers, f);
        let (o, a) = selection_told(selection, devices.drop_last(), client, offers);
        let device = devices.last().handle;
        if device.client == client {
            let e = selection_events(selection, device, o);
            assert forall|k: int| 0 <= k < e.len() implies !f(#[trigger] e[k]) by {
                if let Some(source) = selection {
                    let offer = Handle { client: device.client, key: o.next_key };
                    if 1 <= k < e.len() - 1 {
                        assert(e[k] == mime_events(offer, source.mime)[k - 1]);
                    }
                }
            }
            lemma_filter_none(e, f);
            Seq::filter_distributes_over_add(a, e, f);
            assert(Seq::<Action>::empty() + Seq::<Action>::empty() =~= Seq::<Action>::empty());
        }
    } else {
        assert(selection_told(selection, devices, client, offers).1.filter(f) =~= Seq::empty());
    }
}

/// When the focus moves to another surface, each keyboard of the client that had it is told once that the surface
/// has lost it, each keyboard of the client that gets it is told once that its surface has it, and which modifiers
/// are in effect. Nobody else is told, and nobody if the focus stays where it is.
pub proof fn law_focus_is_told(
    k: KeyboardV,
    surface: Option<Handle>,
    keyboards: Seq<Resource>,
    devices: Seq<Resource>,
    offers: DataOffersV,
)
    ensures
        ({
            let told = k.focus_moves(surface, keyboards, devices, offers).1;
            &&& told.filter(keys()) == Seq::<Action>::empty()
            &&& told.filter(pointer_leaves()) == Seq::<Action>::empty()
            &&& told.filter(buttons()) == Seq::<Action>::empty()
            &&& told.filter(keyboard_leaves()) == if k.focused_surface is Some && k.focused_surface != surface {
                of_client(keyboards, k.focused_surface->0.client).map_values(keyboard_leave_said(k.focused_surface->0))
            } else {
                Seq::empty()
            }
            &&& told.filter(keyboard_enters()) == if surface is Some && k.focused_surface != surface {
                of_client(keyboards, surface->0.client).map_values(keyboard_enter_said(surface->0))
            } else {
                Seq::empty()
            }
            &&& told.filter(modifiers()) == if surface is Some && k.focused_surface != surface {
                of_client(keyboards, surface->0.client).map_values(modifiers_said(k.mods))
            } else {
                Seq::empty()
            }
        }),
{
    let none = Seq::<Action>::empty();
    reveal(Seq::filter);
    if k.focused_surface != surface {
        let leave = match k.focused_surface {
            Some(old) => DeviceEvent::KeyboardLeave { surface: old }.sent_to_client(keyboards, old.client),
            None => Seq::empty(),
        };
        if let Some(old) = k.focused_surface {
            let e = DeviceEvent::KeyboardLeave { surface: old };
            let g = keyboard_leave_said(old);
            lemma_heard(e, keyboards, old.client, keys(), g, -1);
            lemma_heard(e, keyboards, old.client, pointer_leaves(), g, -1);
            lemma_heard(e, keyboards, old.client, buttons(), g, -1);
            lemma_heard(e, keyboards, old.client, keyboard_leaves(), g, 0);
            lemma_heard(e, keyboards, old.client, keyboard_enters(), g, -1);
            lemma_heard(e, keyboards, old.client, modifiers(), g, -1);
        }
        if let Some(new) = surface {
            let told = if k.focused_surface is Some && k.focused_surface->0.client == new.client {
                none
            } else {
                selection_told(k.selection, devices, new.client, offers).1
            };
            let e = DeviceEvent::KeyboardEnter { surface: new, mods: k.mods };
            let enter = e.sent_to_client(keyboards, new.client);
            lemma_heard(e, keyboards, new.client, keys(), keyboard_enter_said(new), -1);
            lemma_heard(e, keyboards, new.client, pointer_leaves(), keyboard_enter_said(new), -1);
            lemma_heard(e, keyboards, new.client, buttons(), keyboard_enter_said(new), -1);
            lemma_heard(e, keyboards, new.client, keyboard_leaves(), keyboard_enter_said(new), -1);
            lemma_heard(e, keyboards, new.client, keyboard_enters(), keyboard_enter_said(new), 0);
            lemma_heard(e, keyboards, new.client, modifiers(), modifiers_said(k.mods), 1);
            lemma_selection_is_for_data_devices(k.selection, devices, new.client, offers, keys());
            lemma_selection_is_for_data_devices(k.selection, devices, new.client, offers, pointer_leaves());
            lemma_selection_is_for_data_devices(k.selection, devices, new.client, offers, buttons());
            lemma_selection_is_for_data_devices(k.selection, devices, new.client, offers, keyboard_leaves());
            lemma_selection_is_for_data_devices(k.selection, devices, new.client, offers, keyboard_enters());
            lemma_selection_is_for_data_devices(k.selection, devices, new.client, offers, modifiers());
            lemma_three_parts(leave, told, enter, keys());
            lemma_three_parts(leave, told, enter, pointer_leaves());
            lemma_three_parts(leave, told, enter, buttons());
            lemma_three_parts(leave, told, enter, keyboard_leaves());
            lemma_three_parts(leave, told, enter, keyboard_enters());
            lemma_three_parts(leave, told, enter, modifiers());
        }
    }
}

proof fn lemma_three_parts(a: Seq<Action>, b: Seq<Action>, c: Seq<Action>, f: spec_fn(Action) -> bool)
    requires
        b.filter(f) == Seq::<Action>::empty(),
    ensures
        a.filter(f) == Seq::<Action>::empty() ==> (a + b + c).filter(f) == c.filter(f),
        c.filter(f) == Seq::<Action>::empty() ==> (a + b + c).filter(f) == a.filter(f),
{
    Seq::filter_distributes_over_add(a + b, c, f);
    Seq::filter_distributes_over_add(a, b, f);
    assert(a.filter(f) + b.filter(f) =~= a.filter(f));
    if a.filter(f) == Seq::<Action>::empty() {
        assert(a.filter(f) + c.filter(f) =~= c.filter(f));
    }
    if c.filter(f) == Seq::<Action>::empty() {
        assert(a.filter(f) + c.filter(f) =~= a.filter(f));
    }
}

/// When a key goes down or up, each keyboard of the client that has the focus is told once, and before that it is
/// told which modifiers are in effect then, if they are not those that it knows. Nobody else is told.
pub proof fn law_key_is_told(
    k: KeyboardV,
    keyboards: Seq<Resource>,
    mods: ModsState,
    key: u32,
    time: u32,
    pressed: bool,
)
    ensures
        ({
            let told = k.key_events(keyboards, mods, key, time, pressed);
            let state = if pressed {
                PressState::Pressed
            } else {
                PressState::Released
            };
            &&& told.filter(keys()) == if k.focused_surface is Some {
                of_client(keyboards, k.focused_surface->0.client).map_values(key_said(time, key, state))
            } else {
                Seq::empty()
            }
            &&& told.filter(modifiers()) == if k.focused_surface is Some && k.mods != mods {
                of_client(keyboards, k.focused_surface->0.client).map_values(modifiers_said(mods))
            } else {
                Seq::empty()
            }
            &&& told.filter(keyboard_enters()) == Seq::<Action>::empty()
            &&& told.filter(keyboard_leaves()) == Seq::<Action>::empty()
            &&& forall|a: int, b: int|
                0 <= a < told.len() && 0 <= b < told.len() && #[trigger] told[a] is KeyboardModifiers
                    && #[trigger] told[b] is KeyboardKey ==> a < b
        }),
{
    let none = Seq::<Action>::empty();
    reveal(Seq::filter);
    if let Some(surface) = k.focused_surface {
        let c = surface.client;
        let state = if pressed {
            PressState::Pressed
        } else {
            PressState::Released
        };
        let e = DeviceEvent::KeyboardKey { time, key, state };
        let g = key_said(time, key, state);
        lemma_heard(e, keyboards, c, keys(), g, 0);
        lemma_heard(e, keyboards, c, modifiers(), g, -1);
        lemma_heard(e, keyboards, c, keyboard_enters(), g, -1);
        lemma_heard(e, keyboards, c, keyboard_leaves(), g, -1);
        let m = DeviceEvent::KeyboardModifiers { mods };
        let h = modifiers_said(mods);
        lemma_heard(m, keyboards, c, keys(), h, -1);
        lemma_heard(m, keyboards, c, modifiers(), h, 0);
        lemma_heard(m, keyboards, c, keyboard_enters(), h, -1);
        lemma_heard(m, keyboards, c, keyboard_leaves(), h, -1);
        let changed = if k.mods != mods {
            m.sent_to_client(keyboards, c)
        } else {
            none
        };
        let sent = e.sent_to_client(keyboards, c);
        assert(changed + none + sent =~= changed + sent);
        lemma_three_parts(changed, none, sent, keys());
        lemma_three_parts(changed, none, sent, modifiers());
        lemma_three_parts(changed, none, sent, keyboard_enters());
        lemma_three_parts(changed, none, sent, keyboard_leaves());
        let told = k.key_events(keyboards, mods, key, time, pressed);
        assert forall|a: int, b: int|
            0 <= a < told.len() && 0 <= b < told.len() && #[trigger] told[a] is KeyboardModifiers
                && #[trigger] told[b] is KeyboardKey implies a < b by {
            if b < changed.len() {
                law_events_stay_with_client(m, keyboards, c, b);
            }
            if a >= changed.len() {
                law_events_stay_with_client(e, keyboards, c, a - changed.len());
            }
        }
    }
}

/// When the pointer leaves a surface, each pointer of its client is told once, and nobody else.
pub proof fn law_leaving_is_told(state: PtrStateV, pointers: Seq<Resource>)
    ensures
        ({
            let told = state.leave_events(pointers);
            &&& told.filter(pointer_leaves()) == match state {
                PtrStateV::Entered { surface, .. } => of_client(pointers, surface.client).map_values(
                    pointer_leave_said(surface),
                ),
                _ => Seq::empty(),
            }
            &&& told.filter(pointer_enters()) == Seq::<Action>::empty()
            &&& told.filter(motions()) == Seq::<Action>::empty()
            &&& told.filter(buttons()) == Seq::<Action>::empty()
            &&& told.filter(turns()) == Seq::<Action>::empty()
        }),
{
    reveal(Seq::filter);
    if let PtrStateV::Entered { surface, .. } = state {
        let e = DeviceEvent::PointerLeave { surface };
        let g = pointer_leave_said(surface);
        lemma_heard(e, pointers, surface.client, pointer_leaves(), g, 0);
        lemma_heard(e, pointers, surface.client, pointer_enters(), g, -1);
        lemma_heard(e, pointers, surface.client, motions(), g, -1);
        lemma_heard(e, pointers, surface.client, buttons(), g, -1);
        lemma_heard(e, pointers, surface.client, turns(), g, -1);
    }
}

/// When the pointer moves on the surface that it is on, each pointer of its client is told once where it is. When it
/// comes to another surface, the pointers of the client of the one before are told that it has left that one, and
/// then those of the client of the new one are told that and where it is on it, where no button counts as held.
pub proof fn law_motion_is_told(p: PointerV, pointers: Seq<Resource>, surface: Handle, time: u32, x: Fixed, y: Fixed)
    ensures
        ({
            let told = p.forward_events(pointers, surface, time, x, y);
            let after = p.forwarded(surface, x, y);
            if p.state is Entered && p.state->Entered_surface == surface {
                &&& told.filter(motions()) == of_client(pointers, surface.client).map_values(motion_said(time, x, y))
                &&& told.filter(pointer_enters()) == Seq::<Action>::empty()
                &&& told.filter(pointer_leaves()) == Seq::<Action>::empty()
                &&& after == p
            } else {
                &&& told.filter(motions()) == Seq::<Action>::empty()
                &&& told.filter(pointer_enters()) == of_client(pointers, surface.client).map_values(
                    pointer_enter_said(surface, x, y),
                )
                &&& told.filter(pointer_leaves()) == if p.state is Entered {
                    of_client(pointers, p.state->Entered_surface.client).map_values(
                        pointer_leave_said(p.state->Entered_surface),
                    )
                } else {
                    Seq::empty()
                }
                &&& forall|a: int, b: int|
                    0 <= a < told.len() && 0 <= b < told.len() && #[trigger] told[a] is PointerLeave
                        && #[trigger] told[b] is PointerEnter ==> a < b
                &&& after.state == (PtrStateV::Entered { surface, pressed_buttons: Seq::empty(), x, y })
                &&& after.x == p.x && after.y == p.y && after.pressed_buttons == p.pressed_buttons
            }
        }),
{
    let c = surface.client;
    let none = Seq::<Action>::empty();
    if p.state is Entered && p.state->Entered_surface == surface {
        let e = DeviceEvent::PointerMotion { time, x, y };
        let g = motion_said(time, x, y);
        lemma_heard(e, pointers, c, motions(), g, 0);
        lemma_heard(e, pointers, c, pointer_enters(), g, -1);
        lemma_heard(e, pointers, c, pointer_leaves(), g, -1);
    } else {
        let e = DeviceEvent::PointerEnter { surface, x, y };
        let g = pointer_enter_said(surface, x, y);
        lemma_heard(e, pointers, c, motions(), g, -1);
        lemma_heard(e, pointers, c, pointer_enters(), g, 0);
        lemma_heard(e, pointers, c, pointer_leaves(), g, -1);
        law_leaving_is_told(p.state, pointers);
        let left = p.state.leave_events(pointers);
        let sent = e.sent_to_client(pointers, c);
        assert(left + none + sent =~= left + sent);
        reveal(Seq::filter);
        lemma_three_parts(left, none, sent, motions());
        lemma_three_parts(left, none, sent, pointer_enters());
        lemma_three_parts(left, none, sent, pointer_leaves());
        let told = p.forward_events(pointers, surface, time, x, y);
        assert forall|a: int, b: int|
            0 <= a < told.len() && 0 <= b < told.len() && #[trigger] told[a] is PointerLeave
                && #[trigger] told[b] is PointerEnter implies a < b by {
            if b < left.len() {
                let o = p.state->Entered_surface;
                law_events_stay_with_client(DeviceEvent::PointerLeave { surface: o }, pointers, o.client, b);
            }
            if a >= left.len() {
                law_events_stay_with_client(e, pointers, c, a - left.len());
            }
        }
    }
}

/// A press is told once to each pointer of the client of the surface that the pointer is on, unless that surface
/// knows of it already, and a release if the surface knows of the press. A surface knows of the presses that it was
/// told of and not of the release of. Nothing is told, and no surface learns of anything, of what is not passed on.
pub proof fn law_button_is_told(
    p: PointerV,
    pointers: Seq<Resource>,
    btn: u32,
    time: u32,
    pressed: bool,
    forward: bool,
    other: u32,
)
    ensures
        ({
            let told = p.button_events(pointers, btn, time, pressed, forward);
            let after = p.button_updated(btn, pressed, forward);
            let state = if pressed {
                PressState::Pressed
            } else {
                PressState::Released
            };
            &&& told.filter(buttons()) == match p.state {
                PtrStateV::Entered { surface, pressed_buttons, .. } => if forward && pressed
                    != pressed_buttons.contains(btn) {
                    of_client(pointers, surface.client).map_values(button_said(time, btn, state))
                } else {
                    Seq::empty()
                },
                _ => Seq::empty(),
            }
            &&& match p.state {
                PtrStateV::Entered { surface, pressed_buttons, x, y } => {
                    &&& after.state is Entered
                    &&& after.state->Entered_surface == surface
                    &&& after.state->Entered_x == x && after.state->Entered_y == y
                    &&& forward ==> after.state->Entered_pressed_buttons.contains(btn) == pressed
                    &&& other != btn || !forward ==> after.state->Entered_pressed_buttons.contains(other)
                        == pressed_buttons.contains(other)
                },
                _ => after.state == p.state,
            }
            &&& after.pressed_buttons.contains(btn) == pressed
            &&& other != btn ==> after.pressed_buttons.contains(other) == p.pressed_buttons.contains(other)
            &&& after.x == p.x && after.y == p.y
        }),
{
    let state = if pressed {
        PressState::Pressed
    } else {
        PressState::Released
    };
    reveal(Seq::filter);
    lemma_button_held(p.pressed_buttons, btn, other);
    if let PtrStateV::Entered { surface, pressed_buttons, .. } = p.state {
        lemma_button_held(pressed_buttons, btn, other);
        let e = DeviceEvent::PointerButton { time, button: btn, state };
        lemma_heard(e, pointers, surface.client, buttons(), button_said(time, btn, state), 0);
    }
}

proof fn lemma_button_held(held: Seq<u32>, btn: u32, other: u32)
    ensures
        held.push(btn).contains(btn),
        !released(held, btn).contains(btn),
        other != btn ==> held.push(btn).contains(other) == held.contains(other),
        other != btn ==> released(held, btn).contains(other) == held.contains(other),
{
    law_released(held, btn, btn);
    law_released(held, btn, other);
    let more = held.push(btn);
    assert(more[held.len() as int] == btn);
    if held.contains(other) {
        let k = choose|k: int| 0 <= k < held.len() && held[k] == other;
        assert(more[k] == other);
    }
}

/// When the wheel has turned, each pointer of the client of the surface that the pointer is on is told once how far,
/// and nobody else.
pub proof fn law_turn_is_told(p: PointerV, pointers: Seq<Resource>, value: Fixed, time: u32)
    ensures
        p.axis_events(pointers, value, time).filter(turns()) == match p.state {
            PtrStateV::Entered { surface, .. } => if value.0 != 0 {
                of_client(pointers, surface.client).map_values(turn_said(time, value))
            } else {
                Seq::empty()
            },
            _ => Seq::empty(),
        },
{
    reveal(Seq::filter);
    if let PtrStateV::Entered { surface, .. } = p.state {
        let e = DeviceEvent::PointerAxis { time, value };
        lemma_heard(e, pointers, surface.client, turns(), turn_said(time, value), 0);
    }
}

/// What a pointer is told at once ends with the end of a group, if the pointer knows groups.
pub proof fn law_group_ends(event: DeviceEvent, r: Resource)
    requires
        event is PointerEnter || event is PointerLeave || event is PointerMotion || event is PointerButton
            || event is PointerAxis,
    ensures
        event.sent_to(r).len() == if r.version >= 5 {
            2nat
        } else {
            1nat
        },
        event.sent_to(r)[0] !is PointerFrame,
        r.version >= 5 ==> event.sent_to(r)[1] == (Action::PointerFrame { pointer: r.handle }),
{
}

/// When a surface is no longer shown, the keyboards of its client are told if it had the focus, and the pointers if
/// the pointer was on it.
pub proof fn law_surface_gone_is_told(seat: SeatV, surface: Handle)
    ensures
        ({
            let told = seat.surface_gone_events(surface);
            let p = seat.pointer.state;
            &&& told.filter(keyboard_leaves()) == if seat.keyboard.focused_surface == Some(surface) {
                of_client(seat.clients.keyboards, surface.client).map_values(keyboard_leave_said(surface))
            } else {
                Seq::empty()
            }
            &&& told.filter(pointer_leaves()) == if p is Entered && p->Entered_surface == surface {
                of_client(seat.clients.pointers, surface.client).map_values(pointer_leave_said(surface))
            } else {
                Seq::empty()
            }
        }),
{
    let none = Seq::<Action>::empty();
    let e = DeviceEvent::KeyboardLeave { surface };
    let g = keyboard_leave_said(surface);
    let h = pointer_leave_said(surface);
    let d = DeviceEvent::PointerLeave { surface };
    let keyboard = if seat.keyboard.focused_surface == Some(surface) {
        e.sent_to_client(seat.clients.keyboards, surface.client)
    } else {
        none
    };
    let pointer = if seat.pointer.state.surface() == Some(surface) {
        seat.pointer.state.leave_events(seat.clients.pointers)
    } else {
        none
    };
    reveal(Seq::filter);
    lemma_heard(e, seat.clients.keyboards, surface.client, keyboard_leaves(), g, 0);
    lemma_heard(e, seat.clients.keyboards, surface.client, pointer_leaves(), g, -1);
    lemma_heard(d, seat.clients.pointers, surface.client, pointer_leaves(), h, 0);
    lemma_heard(d, seat.clients.pointers, surface.client, keyboard_leaves(), h, -1);
    assert(keyboard + none + pointer =~= keyboard + pointer);
    lemma_three_parts(keyboard, none, pointer, keyboard_leaves());
    lemma_three_parts(keyboard, none, pointer, pointer_leaves());
}

/// Picks out what tells data devices which offer is the selection.
pub open spec fn selections() -> spec_fn(Action) -> bool {
    |a: Action| a is DataDeviceSelection
}

/// A data device that is told of the selection is made an offer that names all kinds of data of the selection, in
/// order, and is then told that this offer is the selection. Without a selection it is told so.
pub proof fn law_device_is_told_of_the_selection(
    selection: Option<DataSourceV>,
    device: Handle,
    offers: DataOffersV,
    k: int,
)
    ensures
        ({
            let told = selection_events(selection, device, offers);
            let after = selection_offers(selection, device, offers);
            match selection {
                None => told == seq![Action::DataDeviceSelection { device, offer: None }] && after == offers,
                Some(source) => {
                    let n = source.mime.len();
                    let offer = Handle { client: device.client, key: offers.next_key };
                    &&& told.len() == n + 2
                    &&& told[0] == (Action::DataDeviceOffer { device, offer })
                    &&& 0 <= k < n ==> told[k + 1] == (Action::DataOfferMime { offer, mime: source.mime[k] })
                    &&& told[told.len() - 1] == (Action::DataDeviceSelection { device, offer: Some(offer) })
                    &&& after.list == offers.list.push(DataOffer { offer, source: source.wl })
                    &&& after.next_key == offers.next_key.wrapping_add(1)
                },
            }
        }),
{
}

/// Each data device of a client is told of the selection once, in order, and no other device is. Each gets an offer of
/// its own.
pub proof fn law_selection_is_told(
    selection: Option<DataSourceV>,
    devices: Seq<Resource>,
    client: ClientId,
    offers: DataOffersV,
)
    requires
        offers.next_key + devices.len() <= u64::MAX,
    ensures
        ({
            let (after, told) = selection_told(selection, devices, client, offers);
            let heard = of_client(devices, client);
            &&& told.filter(selections()) == Seq::new(
                heard.len(),
                |k: int|
                    Action::DataDeviceSelection {
                        device: heard[k].handle,
                        offer: match selection {
                            Some(_) => Some(Handle { client, key: (offers.next_key + k) as u64 }),
                            None => None,
                        },
                    },
            )
            &&& selection is None ==> after == offers
            &&& selection matches Some(source) ==> after.next_key == offers.next_key + heard.len() && after.list
                == offers.list + Seq::new(
                heard.len(),
                |k: int| DataOffer { offer: Handle { client, key: (offers.next_key + k) as u64 }, source: source.wl },
            )
        }),
    decreases devices.len(),
{
    reveal(Seq::filter);
    let p = |r: Resource| r.handle.client == client;
    let heard = of_client(devices, client);
    devices.lemma_filter_len(p);
    let say = |k: int|
        Action::DataDeviceSelection {
            device: heard[k].handle,
            offer: match selection {
                Some(_) => Some(Handle { client, key: (offers.next_key + k) as u64 }),
                None => None,
            },
        };
    let (after, told) = selection_told(selection, devices, client, offers);
    if devices.len() > 0 {
        let rest = devices.drop_last();
        law_selection_is_told(selection, rest, client, offers);
        let (o, a) = selection_told(selection, rest, client, offers);
        let before = of_client(rest, client);
        let device = devices.last().handle;
        if device.client == client {
            let e = selection_events(selection, device, o);
            let last = e.len() - 1;
            assert forall|k: int| 0 <= k < e.len() && k != last implies !selections()(#[trigger] e[k]) by {
                if let Some(source) = selection {
                    let offer = Handle { client: device.client, key: o.next_key };
                    if 1 <= k < last {
                        assert(e[k] == mime_events(offer, source.mime)[k - 1]);
                    }
                }
            }
            lemma_filter_one(e, last, selections());
            Seq::filter_distributes_over_add(a, e, selections());
            assert(heard =~= before.push(devices.last()));
            assert(told.filter(selections()) =~= Seq::new(heard.len(), say));
        } else {
            assert(heard =~= before);
            assert(told.filter(selections()) =~= Seq::new(heard.len(), say));
        }
    } else {
        assert(heard =~= Seq::empty());
        assert(told.filter(selections()) =~= Seq::new(heard.len(), say));
    }
    if let Some(source) = selection {
        assert(after.list =~= offers.list + Seq::new(
            heard.len(),
            |k: int| DataOffer { offer: Handle { client, key: (offers.next_key + k) as u64 }, source: source.wl },
        ));
    }
}

/// A new keyboard object is told the keymap first, how keys repeat if it knows of that, and that its client has the
/// focus and with which modifiers, if it has.
pub proof fn law_new_keyboard_is_told(k: KeyboardV, keyboard: Resource)
    ensures
        ({
            let told = k.init_events(keyboard);
            let focus = k.focused_surface is Some && k.focused_surface->0.client == keyboard.handle.client;
            &&& told.len() == 1 + (if keyboard.version >= 4 {
                1nat
            } else {
                0nat
            }) + (if focus {
                2nat
            } else {
                0nat
            })
            &&& told[0] == (Action::KeyboardKeymap { keyboard: keyboard.handle })
            &&& keyboard.version >= 4 ==> told[1] == (Action::KeyboardRepeatInfo {
                keyboard: keyboard.handle,
                rate: 40,
                delay: 300,
            })
            &&& focus ==> told[told.len() - 2] == keyboard_enter_said(k.focused_surface->0)(keyboard)
            &&& focus ==> told[told.len() - 1] == modifiers_said(k.mods)(keyboard)
        }),
{
}

/// A new pointer object is told where the pointer is if it is on a surface of its client, and else nothing.
pub proof fn law_new_pointer_is_told(p: PointerV, pointer: Resource)
    ensures
        p.init_events(pointer) == match p.state {
            PtrStateV::Entered { surface, x, y, .. } => if surface.client == pointer.handle.client {
                seq![pointer_enter_said(surface, x, y)(pointer)]
            } else {
                Seq::empty()
            },
            _ => Seq::empty(),
        },
{
}

/// When the selection is replaced, the source of the one before is told that it is no longer used, and after that the
/// data devices of the client that has the keyboard focus are told of the new one.
pub proof fn law_selection_is_replaced(seat: SeatV, selection: Option<DataSourceV>)
    ensures
        ({
            let after = seat.selected(selection);
            let told = seat.selected_events(selection);
            let focus = seat.keyboard.focused_surface;
            let rest = if focus is Some {
                selection_told(
                    selection,
                    seat.clients.data_devices,
                    focus->0.client,
                    seat.clients.data_offers,
                ).1
            } else {
                Seq::empty()
            };
            &&& after.keyboard.selection == selection
            &&& after.keyboard.focused_surface == focus
            &&& told == match seat.keyboard.selection {
                Some(source) => seq![Action::DataSourceCancelled { source: source.wl }] + rest,
                None => rest,
            }
        }),
{
    let told = seat.selected_events(selection);
    if seat.keyboard.selection is None {
        assert(cancel_events(seat.keyboard.selection) + told =~= told);
    }
}

} // verus!
