//! Clients that want to know what the compositor does.
use vstd::prelude::*;

use crate::client::ClientId;
use crate::protocol::{Action, Handle};

verus! {

/// What a client wants to know.
#[derive(Debug, Clone, Copy, PartialEq, Eq, Structural)]
pub struct Interest {
    /// How long frames take.
    pub frame_stat: bool,
    /// Whatever the compositor has to say.
    pub messages: bool,
}

/// All that is wanted by one of two.
pub open spec fn either(a: Interest, b: Interest) -> Interest {
    Interest { frame_stat: a.frame_stat || b.frame_stat, messages: a.messages || b.messages }
}

/// Nothing is wanted.
pub open spec fn no_interest() -> Interest {
    Interest { frame_stat: false, messages: false }
}

impl Interest {
    /// All that is wanted by one of two.
    pub fn or(self, other: Interest) -> (r: Interest)
        ensures
            r == either(self, other),
    {
        Interest { frame_stat: self.frame_stat || other.frame_stat, messages: self.messages || other.messages }
    }
}

/// A debugger object and what its client wants to know.
#[derive(Debug, Clone, Copy, PartialEq, Eq, Structural)]
pub struct Subscriber {
    pub wl: Handle,
    pub interest: Interest,
}

/// The clients that want to know what the compositor does.
#[derive(Debug)]
pub struct Debugger {
    subscribers: Vec<Subscriber>,
    accum_interest: Interest,
}

/// All that is wanted by one of the subscribers.
pub open spec fn accumulated(subscribers: Seq<Subscriber>) -> Interest
    decreases subscribers.len(),
{
    if subscribers.len() == 0 {
        no_interest()
    } else {
        either(accumulated(subscribers.drop_last()), subscribers.last().interest)
    }
}

/// The subscribers of all clients but one.
pub open spec fn subscribers_without(subscribers: Seq<Subscriber>, client: ClientId) -> Seq<Subscriber>
    decreases subscribers.len(),
{
    if subscribers.len() == 0 {
        Seq::empty()
    } else {
        let before = subscribers_without(subscribers.drop_last(), client);
        if subscribers.last().wl.client == client {
            before
        } else {
            before.push(subscribers.last())
        }
    }
}

/// What is sent to those who want to know how long frames take.
pub open spec fn frame_events(subscribers: Seq<Subscriber>, nanos: u32) -> Seq<Action>
    decreases subscribers.len(),
{
    if subscribers.len() == 0 {
        Seq::empty()
    } else {
        let before = frame_events(subscribers.drop_last(), nanos);
        if subscribers.last().interest.frame_stat {
            before.push(Action::DebugFrameStat { debugger: subscribers.last().wl, nanos })
        } else {
            before
        }
    }
}

/// Who is told what the compositor has to say.
pub open spec fn listeners(subscribers: Seq<Subscriber>) -> Seq<Handle>
    decreases subscribers.len(),
{
    if subscribers.len() == 0 {
        Seq::empty()
    } else {
        let before = listeners(subscribers.drop_last());
        if subscribers.last().interest.messages {
            before.push(subscribers.last().wl)
        } else {
            before
        }
    }
}

/// Whether actions say the same to all who are to be told, one after the other.
pub open spec fn messages_sent(actions: Seq<Action>, to: Seq<Handle>, msg: Seq<char>) -> bool {
    &&& actions.len() == to.len()
    &&& forall|i: int|
        0 <= i < to.len() ==> ((#[trigger] actions[i]) matches Action::DebugMessage { debugger, message } && debugger
            == to[i] && message@ == msg)
}

/// What a [`Debugger`] holds.
#[verifier::ext_equal]
pub struct DebuggerV {
    pub subscribers: Seq<Subscriber>,
    pub accum_interest: Interest,
}

/// What a [`Debugger`] with given subscribers holds.
pub open spec fn debugger_of(subscribers: Seq<Subscriber>) -> DebuggerV {
    DebuggerV { subscribers, accum_interest: accumulated(subscribers) }
}

impl View for Debugger {
    type V = DebuggerV;

    closed spec fn view(&self) -> DebuggerV {
        DebuggerV { subscribers: self.subscribers@, accum_interest: self.accum_interest }
    }
}

impl Debugger {
    /// Whether what is wanted by one of the subscribers is known.
    pub open spec fn wf(&self) -> bool {
        self@.accum_interest == accumulated(self@.subscribers)
    }

    /// Nobody wants to know anything.
    pub fn new() -> (r: Self)
        ensures
            r@ == (DebuggerV { subscribers: Seq::empty(), accum_interest: no_interest() }),
            r.wf(),
    {
        Self { subscribers: Vec::new(), accum_interest: Interest { frame_stat: false, messages: false } }
    }

    /// Handles the request for a debugger object.
    pub fn get_debugger(&mut self, wl: Handle, interest: Interest)
        requires
            old(self).wf(),
        ensures
            final(self)@ == (DebuggerV {
                subscribers: old(self)@.subscribers.push(Subscriber { wl, interest }),
                accum_interest: either(old(self)@.accum_interest, interest),
            }),
            final(self).wf(),
    {
        let ghost before = self.subscribers@;
        self.accum_interest = self.accum_interest.or(interest);
        self.subscribers.push(Subscriber { wl, interest });
        assert(self.subscribers@.drop_last() =~= before);
    }

    /// Forgets the debugger objects of a client.
    pub fn remove_client(&mut self, client_id: ClientId)
        ensures
            final(self)@ == debugger_of(subscribers_without(old(self)@.subscribers, client_id)),
            final(self).wf(),
    {
        let ghost all = self@.subscribers;
        let mut kept: Vec<Subscriber> = Vec::new();
        let mut acc = Interest { frame_stat: false, messages: false };
        let mut i: usize = 0;
        assert(all.take(0) =~= Seq::<Subscriber>::empty());
        while i < self.subscribers.len()
            invariant
                i <= self.subscribers.len(),
                all == self.subscribers@,
                kept@ == subscribers_without(all.take(i as int), client_id),
                acc == accumulated(kept@),
            decreases self.subscribers.len() - i,
        {
            assert(all.take(i + 1).drop_last() =~= all.take(i as int));
            let s = self.subscribers[i];
            if s.wl.client != client_id {
                let ghost before = kept@;
                acc = acc.or(s.interest);
                kept.push(s);
                assert(kept@.drop_last() =~= before);
            }
            i = i + 1;
        }
        assert(all.take(i as int) =~= all);
        self.subscribers = kept;
        self.accum_interest = acc;
    }

    /// All that is wanted by one of the subscribers.
    pub fn accum_interest(&self) -> (r: Interest)
        requires
            self.wf(),
        ensures
            r == self@.accum_interest,
            r == accumulated(self@.subscribers),
    {
        self.accum_interest
    }

    /// Tells how long a frame took to those who want to know.
    pub fn frame(&self, nanos: u32, actions: &mut Vec<Action>)
        ensures
            final(actions)@ == old(actions)@ + frame_events(self@.subscribers, nanos),
    {
        let ghost a0 = actions@;
        let ghost all = self@.subscribers;
        let mut i: usize = 0;
        assert(all.take(0) =~= Seq::<Subscriber>::empty());
        assert(a0 + frame_events(all.take(0), nanos) =~= a0);
        while i < self.subscribers.len()
            invariant
                i <= self.subscribers.len(),
                all == self.subscribers@,
                actions@ == a0 + frame_events(all.take(i as int), nanos),
            decreases self.subscribers.len() - i,
        {
            assert(all.take(i + 1).drop_last() =~= all.take(i as int));
            let s = self.subscribers[i];
            if s.interest.frame_stat {
                actions.push(Action::DebugFrameStat { debugger: s.wl, nanos });
            }
            assert(actions@ =~= a0 + frame_events(all.take(i + 1), nanos));
            i = i + 1;
        }
        assert(all.take(i as int) =~= all);
    }

    /// Tells something to those who want to know what the compositor has to say.
    pub fn message(&self, msg: &String) -> (r: Vec<Action>)
        ensures
            messages_sent(r@, listeners(self@.subscribers), msg@),
    {
        let mut r: Vec<Action> = Vec::new();
        let ghost all = self@.subscribers;
        let mut i: usize = 0;
        assert(all.take(0) =~= Seq::<Subscriber>::empty());
        while i < self.subscribers.len()
            invariant
                i <= self.subscribers.len(),
                all == self.subscribers@,
                messages_sent(r@, listeners(all.take(i as int)), msg@),
            decreases self.subscribers.len() - i,
        {
            assert(all.take(i + 1).drop_last() =~= all.take(i as int));
            let s = self.subscribers[i];
            if s.interest.messages {
                r.push(Action::DebugMessage { debugger: s.wl, message: msg.clone() });
            }
            i = i + 1;
        }
        assert(all.take(i as int) =~= all);
        r
    }
}

/// Nothing is sent that nobody wants to know.
pub proof fn law_silent_without_interest(subscribers: Seq<Subscriber>, nanos: u32)
    ensures
        !accumulated(subscribers).frame_stat ==> frame_events(subscribers, nanos).len() == 0,
        !accumulated(subscribers).messages ==> listeners(subscribers).len() == 0,
    decreases subscribers.len(),
{
    if subscribers.len() > 0 {
        law_silent_without_interest(subscribers.drop_last(), nanos);
    }
}

/// The subscribers that are left when a client is gone are those of all others, in the order in which they were.
pub proof fn law_subscribers_without(subscribers: Seq<Subscriber>, client: ClientId)
    ensures
        subscribers_without(subscribers, client) == subscribers.filter(|s: Subscriber| s.wl.client != client),
    decreases subscribers.len(),
{
    reveal(Seq::filter);
    if subscribers.len() > 0 {
        law_subscribers_without(subscribers.drop_last(), client);
    }
}

/// Each subscriber that wants to know how long frames take is told once, and each that wants to know what the
/// compositor has to say is a listener, in the order in which they subscribed. What is wanted by all together is what
/// one of them wants.
pub proof fn law_subscribers_are_told(subscribers: Seq<Subscriber>, nanos: u32)
    ensures
        frame_events(subscribers, nanos) == subscribers.filter(|s: Subscriber| s.interest.frame_stat).map_values(
            |s: Subscriber| Action::DebugFrameStat { debugger: s.wl, nanos },
        ),
        listeners(subscribers) == subscribers.filter(|s: Subscriber| s.interest.messages).map_values(
            |s: Subscriber| s.wl,
        ),
        accumulated(subscribers).frame_stat <==> exists|k: int|
            0 <= k < subscribers.len() && (#[trigger] subscribers[k]).interest.frame_stat,
        accumulated(subscribers).messages <==> exists|k: int|
            0 <= k < subscribers.len() && (#[trigger] subscribers[k]).interest.messages,
    decreases subscribers.len(),
{
    reveal(Seq::filter);
    let f = |s: Subscriber| s.interest.frame_stat;
    let g = |s: Subscriber| s.interest.messages;
    let say = |s: Subscriber| Action::DebugFrameStat { debugger: s.wl, nanos };
    let name = |s: Subscriber| s.wl;
    if subscribers.len() > 0 {
        let rest = subscribers.drop_last();
        law_subscribers_are_told(rest, nanos);
        assert(frame_events(subscribers, nanos) =~= subscribers.filter(f).map_values(say));
        assert(listeners(subscribers) =~= subscribers.filter(g).map_values(name));
        let last = subscribers.len() - 1;
        if accumulated(subscribers).frame_stat {
            if accumulated(rest).frame_stat {
                let k = choose|k: int| 0 <= k < rest.len() && (#[trigger] rest[k]).interest.frame_stat;
                assert(subscribers[k].interest.frame_stat);
            } else {
                assert(subscribers[last].interest.frame_stat);
            }
        }
        if accumulated(subscribers).messages {
            if accumulated(rest).messages {
                let k = choose|k: int| 0 <= k < rest.len() && (#[trigger] rest[k]).interest.messages;
                assert(subscribers[k].interest.messages);
            } else {
                assert(subscribers[last].interest.messages);
            }
        }
        assert forall|k: int| 0 <= k < subscribers.len() implies ((#[trigger] subscribers[k]).interest.frame_stat
            ==> accumulated(subscribers).frame_stat) && (subscribers[k].interest.messages ==> accumulated(
            subscribers,
        ).messages) by {
            if k < last {
                assert(rest[k] == subscribers[k]);
            }
        }
    } else {
        assert(frame_events(subscribers, nanos) =~= subscribers.filter(f).map_values(say));
        assert(listeners(subscribers) =~= subscribers.filter(g).map_values(name));
    }
}

} // verus!
