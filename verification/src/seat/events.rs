//! Input events on their way to the clients.
use vstd::prelude::*;

use crate::client::ClientId;
use crate::protocol::{Action, Fixed, Handle, PressState, Resource};
use crate::seat::keyboard::ModsState;

verus! {

/// An event for the keyboards or the pointers of one client.
#[derive(Debug, Clone, Copy, PartialEq, Eq, Structural)]
pub enum DeviceEvent {
    KeyboardEnter { surface: Handle, mods: ModsState },
    KeyboardLeave { surface: Handle },
    KeyboardModifiers { mods: ModsState },
    KeyboardKey { time: u32, key: u32, state: PressState },
    PointerEnter { surface: Handle, x: Fixed, y: Fixed },
    PointerLeave { surface: Handle },
    PointerMotion { time: u32, x: Fixed, y: Fixed },
    PointerButton { time: u32, button: u32, state: PressState },
    PointerAxis { time: u32, value: Fixed },
}

/// What ends a group of pointer events, for pointers that know such groups.
pub open spec fn frame_end(r: Resource) -> Seq<Action> {
    if r.version >= 5 {
        seq![Action::PointerFrame { pointer: r.handle }]
    } else {
        Seq::empty()
    }
}

impl DeviceEvent {
    /// What is sent to one keyboard or pointer.
    pub open spec fn sent_to(self, r: Resource) -> Seq<Action> {
        let h = r.handle;
        match self {
            DeviceEvent::KeyboardEnter { surface, mods } => seq![
                Action::KeyboardEnter { keyboard: h, serial: 1, surface },
                mods.event(1, h),
            ],
            DeviceEvent::KeyboardLeave { surface } => seq![Action::KeyboardLeave { keyboard: h, serial: 1, surface }],
            DeviceEvent::KeyboardModifiers { mods } => seq![mods.event(1, h)],
            DeviceEvent::KeyboardKey { time, key, state } => seq![
                Action::KeyboardKey { keyboard: h, serial: 1, time, key, state },
            ],
            DeviceEvent::PointerEnter { surface, x, y } => seq![
                Action::PointerEnter { pointer: h, serial: 1, surface, x, y },
            ] + frame_end(r),
            DeviceEvent::PointerLeave { surface } => seq![Action::PointerLeave { pointer: h, serial: 1, surface }]
                + frame_end(r),
            DeviceEvent::PointerMotion { time, x, y } => seq![Action::PointerMotion { pointer: h, time, x, y }]
                + frame_end(r),
            DeviceEvent::PointerButton { time, button, state } => seq![
                Action::PointerButton { pointer: h, serial: 1, time, button, state },
            ] + frame_end(r),
            DeviceEvent::PointerAxis { time, value } => seq![Action::PointerAxis { pointer: h, time, value }] + frame_end(
                r,
            ),
        }
    }

    /// What is sent to the keyboards or pointers in a list that belong to `client`, in order.
    pub open spec fn sent_to_client(self, list: Seq<Resource>, client: ClientId) -> Seq<Action>
        decreases list.len(),
    {
        if list.len() == 0 {
            Seq::empty()
        } else {
            let before = self.sent_to_client(list.drop_last(), client);
            if list.last().handle.client == client {
                before + self.sent_to(list.last())
            } else {
                before
            }
        }
    }

    /// Sends the event to one keyboard or pointer.
    pub fn send_to(self, r: Resource, actions: &mut Vec<Action>)
        ensures
            final(actions)@ == old(actions)@ + self.sent_to(r),
    {
        let ghost before = actions@;
        let h = r.handle;
        let pointer = match self {
            DeviceEvent::KeyboardEnter { surface, mods } => {
                actions.push(Action::KeyboardEnter { keyboard: h, serial: 1, surface });
                mods.send(1, h, actions);
                false
            },
            DeviceEvent::KeyboardLeave { surface } => {
                actions.push(Action::KeyboardLeave { keyboard: h, serial: 1, surface });
                false
            },
            DeviceEvent::KeyboardModifiers { mods } => {
                mods.send(1, h, actions);
                false
            },
            DeviceEvent::KeyboardKey { time, key, state } => {
                actions.push(Action::KeyboardKey { keyboard: h, serial: 1, time, key, state });
                false
            },
            DeviceEvent::PointerEnter { surface, x, y } => {
                actions.push(Action::PointerEnter { pointer: h, serial: 1, surface, x, y });
                true
            },
            DeviceEvent::PointerLeave { surface } => {
                actions.push(Action::PointerLeave { pointer: h, serial: 1, surface });
                true
            },
            DeviceEvent::PointerMotion { time, x, y } => {
                actions.push(Action::PointerMotion { pointer: h, time, x, y });
                true
            },
            DeviceEvent::PointerButton { time, button, state } => {
                actions.push(Action::PointerButton { pointer: h, serial: 1, time, button, state });
                true
            },
            DeviceEvent::PointerAxis { time, value } => {
                actions.push(Action::PointerAxis { pointer: h, time, value });
                true
            },
        };
        if pointer && r.version >= 5 {
            actions.push(Action::PointerFrame { pointer: h });
        }
        assert(actions@ =~= before + self.sent_to(r));
    }

    /// Sends the event to the keyboards or pointers in a list that belong to `client`.
    pub fn send_to_client(self, list: &Vec<Resource>, client: ClientId, actions: &mut Vec<Action>)
        ensures
            final(actions)@ == old(actions)@ + self.sent_to_client(list@, client),
    {
        let ghost before = actions@;
        let mut i: usize = 0;
        assert(list@.take(0) =~= Seq::<Resource>::empty());
        assert(actions@ =~= before + self.sent_to_client(list@.take(0), client));
        while i < list.len()
            invariant
                i <= list.len(),
                actions@ == before + self.sent_to_client(list@.take(i as int), client),
            decreases list.len() - i,
        {
            proof {
                assert(list@.take(i + 1).drop_last() =~= list@.take(i as int));
                assert(list@.take(i + 1).last() == list@[i as int]);
                assert(before + self.sent_to_client(list@.take(i as int), client) + self.sent_to(list@[i as int])
                    =~= before + (self.sent_to_client(list@.take(i as int), client) + self.sent_to(list@[i as int])));
            }
            if list[i].handle.client == client {
                self.send_to(list[i], actions);
            }
            i = i + 1;
        }
        assert(list@.take(i as int) =~= list@);
    }
}

/// Events for one client go to objects of that client only.
pub proof fn law_events_stay_with_client(event: DeviceEvent, list: Seq<Resource>, client: ClientId, k: int)
    requires
        0 <= k < event.sent_to_client(list, client).len(),
    ensures
        exists|j: int|
            0 <= j < list.len() && (#[trigger] list[j]).handle.client == client && event.sent_to(list[j]).contains(
                event.sent_to_client(list, client)[k],
            ),
    decreases list.len(),
{
    let before = event.sent_to_client(list.drop_last(), client);
    let all = event.sent_to_client(list, client);
    if k < before.len() {
        law_events_stay_with_client(event, list.drop_last(), client, k);
        assert(all[k] == before[k]);
        let j = choose|j: int|
            0 <= j < list.drop_last().len() && (#[trigger] list.drop_last()[j]).handle.client == client && event.sent_to(
                list.drop_last()[j],
            ).contains(before[k]);
        assert(list[j] == list.drop_last()[j]);
    } else {
        let j = list.len() - 1;
        assert(list[j].handle.client == client);
        assert(event.sent_to(list[j])[k - before.len()] == all[k]);
    }
}

/// The objects that are left when one is taken out.
pub open spec fn without(list: Seq<Resource>, handle: Handle) -> Seq<Resource>
    decreases list.len(),
{
    if list.len() == 0 {
        Seq::empty()
    } else {
        let before = without(list.drop_last(), handle);
        if list.last().handle == handle {
            before
        } else {
            before.push(list.last())
        }
    }
}

/// The objects that are left when those of a client are taken out.
pub open spec fn without_client(list: Seq<Resource>, client: ClientId) -> Seq<Resource>
    decreases list.len(),
{
    if list.len() == 0 {
        Seq::empty()
    } else {
        let before = without_client(list.drop_last(), client);
        if list.last().handle.client == client {
            before
        } else {
            before.push(list.last())
        }
    }
}

/// Takes one object out of a list.
pub fn remove_resource(list: &mut Vec<Resource>, handle: Handle)
    ensures
        final(list)@ == without(old(list)@, handle),
{
    let mut kept: Vec<Resource> = Vec::new();
    let mut i: usize = 0;
    assert(list@.take(0) =~= Seq::<Resource>::empty());
    while i < list.len()
        invariant
            i <= list.len(),
            list@ == old(list)@,
            kept@ == without(list@.take(i as int), handle),
        decreases list.len() - i,
    {
        assert(list@.take(i + 1).drop_last() =~= list@.take(i as int));
        if list[i].handle != handle {
            kept.push(list[i]);
        }
        i = i + 1;
    }
    assert(list@.take(i as int) =~= list@);
    *list = kept;
}

/// Takes the objects of a client out of a list.
pub fn remove_resources_of(list: &mut Vec<Resource>, client: ClientId)
    ensures
        final(list)@ == without_client(old(list)@, client),
{
    let mut kept: Vec<Resource> = Vec::new();
    let mut i: usize = 0;
    assert(list@.take(0) =~= Seq::<Resource>::empty());
    while i < list.len()
        invariant
            i <= list.len(),
            list@ == old(list)@,
            kept@ == without_client(list@.take(i as int), client),
        decreases list.len() - i,
    {
        assert(list@.take(i + 1).drop_last() =~= list@.take(i as int));
        if list[i].handle.client != client {
            kept.push(list[i]);
        }
        i = i + 1;
    }
    assert(list@.take(i as int) =~= list@);
    *list = kept;
}

/// No object of a client is left after those of the client were taken out, and all others are.
pub proof fn law_without_client(list: Seq<Resource>, client: ClientId, r: Resource)
    ensures
        without_client(list, client).contains(r) <==> list.contains(r) && r.handle.client != client,
    decreases list.len(),
{
    let kept = without_client(list, client);
    if list.len() > 0 {
        law_without_client(list.drop_last(), client, r);
        let before = without_client(list.drop_last(), client);
        if list.contains(r) {
            let k = choose|k: int| 0 <= k < list.len() && list[k] == r;
            if k < list.len() - 1 {
                assert(list.drop_last()[k] == r);
            }
        }
        if before.contains(r) {
            let k = choose|k: int| 0 <= k < before.len() && before[k] == r;
            assert(kept[k] == r);
            let l = choose|l: int| 0 <= l < list.drop_last().len() && list.drop_last()[l] == r;
            assert(list[l] == r);
        }
        if list.last() == r && r.handle.client != client {
            assert(kept[kept.len() - 1] == r);
        }
        if kept.contains(r) && !before.contains(r) {
            let k = choose|k: int| 0 <= k < kept.len() && kept[k] == r;
            if k < before.len() {
                assert(before[k] == r);
            }
            assert(list[list.len() - 1] == r);
        }
    }
}

/// The objects that are left when one is taken out are all others, in the order in which they were.
pub proof fn law_without(list: Seq<Resource>, handle: Handle)
    ensures
        without(list, handle) == list.filter(|r: Resource| r.handle != handle),
    decreases list.len(),
{
    reveal(Seq::filter);
    if list.len() > 0 {
        law_without(list.drop_last(), handle);
    }
}

/// The objects that are left when those of a client are taken out are in the order in which they were.
pub proof fn law_without_client_in_order(list: Seq<Resource>, client: ClientId)
    ensures
        without_client(list, client) == list.filter(|r: Resource| r.handle.client != client),
    decreases list.len(),
{
    reveal(Seq::filter);
    if list.len() > 0 {
        law_without_client_in_order(list.drop_last(), client);
    }
}

} // verus!
