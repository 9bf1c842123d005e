//! In what order things that happen are handled.
use vstd::prelude::*;

use std::collections::HashMap;

use crate::client::ClientId;

verus! {

broadcast use vstd::std_specs::hash::group_hash_axioms;

/// What can happen.
#[derive(Debug, Clone, Copy, PartialEq, Eq, Structural, PartialOrd, Ord, Hash)]
pub enum Event {
    /// A client wants to connect.
    Socket,
    /// The backend has something to say.
    Backend(u32),
    /// The user wants to quit.
    Quit,
    /// A client sent something.
    Client(ClientId),
    /// All that has happened was handled.
    MayGoIdle,
}

/// What to do next.
#[derive(Debug, Clone, Copy, PartialEq, Eq, Structural)]
pub enum Poll {
    /// Handle an event.
    Handle(Event),
    /// Wait until something happens.
    Wait,
}

/// How many events are fetched at a time.
pub const BATCH: usize = 32;

/// The events that can happen, each with a number, and the numbers of those that happened.
#[derive(Debug)]
pub struct EventLoop {
    next_id: u64,
    data_map: HashMap<u64, Event>,
    event_buf: Vec<u64>,
    event_cnt: usize,
    event_head: usize,
}

/// What an [`EventLoop`] says.
#[verifier::ext_equal]
pub struct EventLoopV {
    pub next_id: u64,
    pub data_map: Map<u64, Event>,
    /// The numbers of the events that happened and were not handled yet.
    pub pending: Seq<u64>,
    /// Whether an event was handled since something was waited for.
    pub busy: bool,
}

impl View for EventLoop {
    type V = EventLoopV;

    closed spec fn view(&self) -> EventLoopV {
        EventLoopV {
            next_id: self.next_id,
            data_map: self.data_map@,
            pending: self.event_buf@.subrange(self.event_head as int, self.event_head + self.event_cnt),
            busy: self.event_head != 0,
        }
    }
}

/// Whether every number in a list is the number of an event.
pub open spec fn all_known(data_map: Map<u64, Event>, ids: Seq<u64>) -> bool {
    forall|i: int| 0 <= i < ids.len() ==> data_map.contains_key(#[trigger] ids[i])
}

impl EventLoopV {
    /// What to do next.
    pub open spec fn next_step(self) -> Poll {
        if self.pending.len() > 0 {
            Poll::Handle(self.data_map[self.pending[0]])
        } else if self.busy {
            Poll::Handle(Event::MayGoIdle)
        } else {
            Poll::Wait
        }
    }

    /// The state after the next step.
    pub open spec fn stepped(self) -> EventLoopV {
        if self.pending.len() > 0 {
            EventLoopV { pending: self.pending.drop_first(), busy: true, ..self }
        } else {
            EventLoopV { busy: false, ..self }
        }
    }
}

impl EventLoop {
    /// What holds between calls.
    pub closed spec fn wf(&self) -> bool {
        &&& self.event_head + self.event_cnt <= self.event_buf.len()
        &&& all_known(self@.data_map, self@.pending)
        &&& forall|id: u64| #[trigger] self@.data_map.contains_key(id) ==> id < self.next_id
    }

    /// Nothing can happen yet.
    pub fn new() -> (r: Self)
        ensures
            r@ == (EventLoopV { next_id: 0, data_map: Map::empty(), pending: Seq::empty(), busy: false }),
            r.wf(),
    {
        let r = Self { next_id: 0, data_map: HashMap::new(), event_buf: Vec::new(), event_cnt: 0, event_head: 0 };
        assert(r@.pending =~= Seq::<u64>::empty());
        r
    }

    /// The number that the next event gets.
    pub fn next_id(&self) -> (r: u64)
        ensures
            r == self@.next_id,
    {
        self.next_id
    }

    /// Adds an event under the next number.
    pub fn add_fd(&mut self, event: Event)
        requires
            old(self).wf(),
            old(self)@.next_id < u64::MAX,
        ensures
            final(self)@ == (EventLoopV {
                next_id: (old(self)@.next_id + 1) as u64,
                data_map: old(self)@.data_map.insert(old(self)@.next_id, event),
                ..old(self)@
            }),
            final(self).wf(),
    {
        self.data_map.insert(self.next_id, event);
        self.next_id = self.next_id + 1;
    }

    /// Says what to do next.
    pub fn poll(&mut self) -> (r: Poll)
        requires
            old(self).wf(),
        ensures
            r == old(self)@.next_step(),
            final(self)@ == old(self)@.stepped(),
            final(self).wf(),
    {
        let ghost v = self@;
        if self.event_cnt > 0 {
            let id: u64 = self.event_buf[self.event_head];
            assert(v.pending[0] == id);
            self.event_cnt = self.event_cnt - 1;
            self.event_head = self.event_head + 1;
            assert(self@.pending =~= v.pending.drop_first());
            assert forall|i: int| 0 <= i < self@.pending.len() implies self@.data_map.contains_key(
                #[trigger] self@.pending[i],
            ) by {
                assert(self@.pending[i] == v.pending[i + 1]);
            }
            Poll::Handle(*self.data_map.get(&id).unwrap())
        } else if self.event_head != 0 {
            self.event_head = 0;
            assert(self@.pending =~= v.pending);
            Poll::Handle(Event::MayGoIdle)
        } else {
            Poll::Wait
        }
    }

    /// Takes the numbers of the events that happened while nothing was to be done.
    pub fn happened(&mut self, ids: Vec<u64>)
        requires
            old(self).wf(),
            old(self)@.next_step() is Wait,
            0 < ids@.len() <= BATCH,
            all_known(old(self)@.data_map, ids@),
        ensures
            final(self)@ == (EventLoopV { pending: ids@, ..old(self)@ }),
            final(self).wf(),
    {
        self.event_cnt = ids.len();
        self.event_head = 0;
        self.event_buf = ids;
        assert(self@.pending =~= ids@);
    }
}

/// The state after several steps.
pub open spec fn steps(v: EventLoopV, n: nat) -> EventLoopV
    decreases n,
{
    if n == 0 {
        v
    } else {
        steps(v, (n - 1) as nat).stepped()
    }
}

/// What happened is handled in order, each event once; then the compositor may go idle; then it waits.
pub proof fn law_batch_then_idle(v: EventLoopV, i: nat)
    requires
        !v.busy,
        v.pending.len() > 0,
        i <= v.pending.len(),
    ensures
        steps(v, i).pending == v.pending.skip(i as int),
        steps(v, i).data_map == v.data_map,
        i > 0 ==> steps(v, i).busy,
        i < v.pending.len() ==> steps(v, i).next_step() == Poll::Handle(v.data_map[v.pending[i as int]]),
        i == v.pending.len() ==> {
            &&& steps(v, i).next_step() == Poll::Handle(Event::MayGoIdle)
            &&& steps(v, i).stepped().next_step() is Wait
        },
    decreases i,
{
    if i > 0 {
        law_batch_then_idle(v, (i - 1) as nat);
        assert(v.pending.skip(i - 1).drop_first() =~= v.pending.skip(i as int));
    } else {
        assert(v.pending.skip(0) =~= v.pending);
    }
}

} // verus!
