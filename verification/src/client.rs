//! Client identities and the set of clients with unsent events.
use vstd::prelude::*;

use std::collections::VecDeque;

use crate::globals::{global_events, globals_wf, GlobalsManager, GlobalsV};
use crate::protocol::{Action, Handle};
use crate::wayland_core::{Object, ObjectState};

verus! {

/// Identifies a client connection. The number is never zero.
#[derive(Debug, Clone, Copy, PartialEq, Eq, Structural, PartialOrd, Ord, Hash)]
pub struct ClientId {
    id: u64,
}

impl View for ClientId {
    type V = nat;

    closed spec fn view(&self) -> nat {
        self.id as nat
    }
}

impl ClientId {
    /// The identity of the first client.
    pub fn first() -> (r: Self)
        ensures
            r@ == 1,
    {
        Self { id: 1 }
    }

    /// The identity that follows this one.
    pub fn next(self) -> (r: Self)
        requires
            self@ < u64::MAX,
        ensures
            r@ == self@ + 1,
    {
        Self { id: self.id + 1 }
    }
}

/// The clients that have events to be sent. None is in the list twice.
#[derive(Debug)]
pub struct ToFlushSet {
    clients: Vec<ClientId>,
}

impl View for ToFlushSet {
    type V = Set<ClientId>;

    closed spec fn view(&self) -> Set<ClientId> {
        self.clients@.to_set()
    }
}

impl ToFlushSet {
    /// Whether no client is in the list twice.
    pub closed spec fn wf(&self) -> bool {
        self.clients@.no_duplicates()
    }

    /// No client.
    pub fn new() -> (r: Self)
        ensures
            r@ == Set::<ClientId>::empty(),
            r.wf(),
    {
        let r = Self { clients: Vec::new() };
        assert(r@ =~= Set::<ClientId>::empty());
        r
    }

    /// Adds a client.
    pub fn add(&mut self, client_id: ClientId)
        requires
            old(self).wf(),
        ensures
            final(self)@ == old(self)@.insert(client_id),
            final(self).wf(),
    {
        let ghost before = self.clients@;
        let mut i: usize = 0;
        while i < self.clients.len()
            invariant
                i <= self.clients.len(),
                self.clients@ == before,
                before == old(self).clients@,
                self.wf(),
                forall|j: int| 0 <= j < i ==> self.clients@[j] != client_id,
            decreases self.clients.len() - i,
        {
            if self.clients[i] == client_id {
                assert(before.contains(client_id));
                assert(self@ =~= before.to_set().insert(client_id));
                return ;
            }
            i = i + 1;
        }
        self.clients.push(client_id);
        assert(self@ =~= before.to_set().insert(client_id)) by {
            assert forall|c: ClientId| self@.contains(c) == before.to_set().insert(client_id).contains(c) by {
                if before.contains(c) {
                    let j = choose|j: int| 0 <= j < before.len() && before[j] == c;
                    assert(self.clients@[j] == c);
                }
                if c == client_id {
                    assert(self.clients@[before.len() as int] == c);
                }
                if self.clients@.contains(c) && c != client_id {
                    let j = choose|j: int| 0 <= j < self.clients@.len() && self.clients@[j] == c;
                    assert(before[j] == c);
                }
            }
        }
    }

    /// Takes all clients out, each once.
    pub fn drain(&mut self) -> (r: Vec<ClientId>)
        requires
            old(self).wf(),
        ensures
            r@.no_duplicates(),
            r@.to_set() == old(self)@,
            final(self)@ == Set::<ClientId>::empty(),
            final(self).wf(),
    {
        let mut r: Vec<ClientId> = Vec::new();
        std::mem::swap(&mut r, &mut self.clients);
        assert(self@ =~= Set::<ClientId>::empty());
        r
    }
}

/// The events that wait to be sent to a client, in order.
#[derive(Debug)]
pub struct EventsQueue<T> {
    queue: VecDeque<T>,
}

impl<T> View for EventsQueue<T> {
    type V = Seq<T>;

    closed spec fn view(&self) -> Seq<T> {
        self.queue@
    }
}

impl<T> EventsQueue<T> {
    /// Nothing waits.
    pub fn new() -> (r: Self)
        ensures
            r@ == Seq::<T>::empty(),
    {
        Self { queue: VecDeque::new() }
    }

    /// Adds an event, and the client to those that have events to be sent.
    pub fn send_event(&mut self, event: T, client_id: ClientId, to_flush: &mut ToFlushSet)
        requires
            old(to_flush).wf(),
        ensures
            final(self)@ == old(self)@.push(event),
            final(to_flush)@ == old(to_flush)@.insert(client_id),
            final(to_flush).wf(),
    {
        self.queue.push_back(event);
        to_flush.add(client_id);
    }

    /// Takes the event that waits longest.
    pub fn take(&mut self) -> (r: Option<T>)
        ensures
            old(self)@.len() == 0 ==> r is None && final(self)@ == old(self)@,
            old(self)@.len() > 0 ==> r == Some(old(self)@[0]) && final(self)@ == old(self)@.drop_first(),
    {
        let ghost q = self@;
        let r = self.queue.pop_front();
        assert(q.len() > 0 ==> self@ =~= q.drop_first());
        r
    }

    /// Puts an event back that could not be sent. It is the next one to be taken.
    pub fn put_back(&mut self, event: T)
        ensures
            final(self)@ == seq![event] + old(self)@,
    {
        let ghost q = self@;
        self.queue.push_front(event);
        assert(self@ =~= seq![event] + q);
    }
}

/// An event that is taken and put back leaves the events as they were.
pub proof fn law_put_back<T>(queue: Seq<T>)
    requires
        queue.len() > 0,
    ensures
        seq![queue[0]] + queue.drop_first() == queue,
{
    assert(seq![queue[0]] + queue.drop_first() =~= queue);
}

/// What is done with a request of a client.
#[derive(Debug, Clone, Copy, PartialEq, Eq, Structural)]
pub enum RequestStep {
    /// It is for an object that ended, and is ignored.
    Ignore,
    /// It is handled.
    Handle,
    /// It is handled, and then its object ends.
    HandleAndDestroy,
}

/// What is done with a request for an object.
pub fn request_step(object: Object, is_destructor: bool) -> (r: RequestStep)
    ensures
        r == (if object.state is Dead {
            RequestStep::Ignore
        } else if is_destructor {
            RequestStep::HandleAndDestroy
        } else {
            RequestStep::Handle
        }),
{
    match object.state {
        ObjectState::Dead => RequestStep::Ignore,
        ObjectState::Alive => if is_destructor {
            RequestStep::HandleAndDestroy
        } else {
            RequestStep::Handle
        },
    }
}

/// Requests on the display.
#[derive(Debug, Clone, Copy, PartialEq, Eq, Structural)]
pub enum DisplayRequest {
    Sync(Handle),
    GetRegistry(Handle),
}

/// Handles a request on the display.
pub fn wl_display_cb(globals: &mut GlobalsManager, request: DisplayRequest, actions: &mut Vec<Action>)
    requires
        globals_wf(old(globals)@),
    ensures
        match request {
            DisplayRequest::Sync(callback) => {
                &&& final(globals)@ == old(globals)@
                &&& final(actions)@ == old(actions)@.push(Action::CallbackDone { callback, data: 0 })
            },
            DisplayRequest::GetRegistry(registry) => {
                &&& final(globals)@ == (GlobalsV {
                    registries: old(globals)@.registries.push(registry),
                    ..old(globals)@
                })
                &&& final(actions)@ == old(actions)@ + global_events(registry, old(globals)@.globals)
            },
        },
        globals_wf(final(globals)@),
{
    match request {
        DisplayRequest::Sync(callback) => {
            actions.push(Action::CallbackDone { callback, data: 0 });
        },
        DisplayRequest::GetRegistry(registry) => {
            globals.add_registry(registry, actions);
        },
    }
}

} // verus!
