//! Wire-level objects.
use vstd::prelude::*;

use crate::client::ClientId;
use crate::error::Error;
use crate::protocol::{Action, Fixed};

verus! {

/// A message whose arguments do not fit its request.
#[derive(Debug, Clone, Copy, PartialEq, Eq, Structural)]
pub struct BadMessage;

impl BadMessage {
    /// The error that ends the connection.
    pub fn error(self) -> (r: Error)
        ensures
            r == Error::BadMessage,
    {
        Error::BadMessage
    }
}

/// An object of another interface than the one asked for.
#[derive(Debug, Clone, Copy, PartialEq, Eq, Structural)]
pub struct WrongObject;

/// Whether an object still takes requests.
#[derive(Debug, Clone, Copy, PartialEq, Eq, Structural)]
pub enum ObjectState {
    Alive,
    Dead,
}

/// The whole part of a number, rounded towards zero.
pub open spec fn fixed_trunc(f: Fixed) -> i32 {
    if f.0 >= 0 {
        (f.0 as int / 256) as i32
    } else {
        (-(-(f.0 as int) / 256)) as i32
    }
}

/// Calls `wayrs_core::Fixed::is_int`: whether the number has no fractional part.
#[verifier::external_body]
pub(crate) fn fixed_is_int(f: Fixed) -> (r: bool)
    ensures
        r == (f.0 as int % 256 == 0),
{
    wayrs_core::Fixed(f.0).is_int()
}

/// Calls `wayrs_core::Fixed::as_int`: the whole part of the number, rounded towards zero.
#[verifier::external_body]
pub(crate) fn fixed_as_int(f: Fixed) -> (r: i32)
    ensures
        r == fixed_trunc(f),
{
    wayrs_core::Fixed(f.0).as_int()
}

/// The number of the display object.
pub const DISPLAY_ID: u32 = 1;

/// The greatest number of an object that a client makes.
pub const MAX_CLIENT: u32 = 0xfeff_ffff;

/// The least number of an object that the compositor makes.
pub const MIN_SERVER: u32 = 0xff00_0000;

/// Calls `wayrs_core::ObjectId::created_by_client`: whether an object has a number that clients give.
#[verifier::external_body]
pub(crate) fn created_by_client(id: u32) -> (r: bool)
    requires
        id != 0,
    ensures
        r == (id <= MAX_CLIENT),
{
    wayrs_core::ObjectId(std::num::NonZeroU32::new(id).unwrap()).created_by_client()
}

/// Calls `wayrs_core::ObjectId::created_by_server`: whether an object has a number that the
/// compositor gives.
#[verifier::external_body]
pub(crate) fn created_by_server(id: u32) -> (r: bool)
    requires
        id != 0,
    ensures
        r == (id >= MIN_SERVER),
{
    wayrs_core::ObjectId(std::num::NonZeroU32::new(id).unwrap()).created_by_server()
}

/// An object that a client and the compositor talk about. The key tells objects apart that had the
/// same number at different times.
#[derive(Debug, Clone, Copy, PartialEq, Eq, Structural)]
pub struct Object {
    pub id: u32,
    /// The number of the interface.
    pub interface: u32,
    pub version: u32,
    pub key: u64,
    pub state: ObjectState,
}

/// The objects of a client by their numbers.
#[derive(Debug)]
pub struct ObjectStorage {
    clients: Vec<Object>,
    servers: Vec<Object>,
    free_server_ids: Vec<u32>,
    next_server_id: u32,
}

/// What an [`ObjectStorage`] says.
#[verifier::ext_equal]
pub struct ObjectsV {
    pub clients: Seq<Object>,
    pub servers: Seq<Object>,
    pub free: Seq<u32>,
    pub next_server_id: u32,
}

impl View for ObjectStorage {
    type V = ObjectsV;

    closed spec fn view(&self) -> ObjectsV {
        ObjectsV {
            clients: self.clients@,
            servers: self.servers@,
            free: self.free_server_ids@,
            next_server_id: self.next_server_id,
        }
    }
}

/// The place of an object among those of its maker.
pub open spec fn id_index(id: u32) -> int {
    if id <= MAX_CLIENT {
        id - 1
    } else {
        id - MIN_SERVER
    }
}

/// What holds of the objects between calls.
pub open spec fn objects_wf(o: ObjectsV) -> bool {
    &&& 1 <= o.clients.len() <= MAX_CLIENT
    &&& forall|i: int| 0 <= i < o.clients.len() ==> (#[trigger] o.clients[i]).id == i + 1
    &&& o.next_server_id == MIN_SERVER + o.servers.len()
    &&& forall|i: int| 0 <= i < o.servers.len() ==> (#[trigger] o.servers[i]).id == MIN_SERVER + i
    // a number that can be given again is not in use, and is given once
    &&& forall|i: int|
        0 <= i < o.free.len() ==> MIN_SERVER <= #[trigger] o.free[i] < o.next_server_id && o.servers[id_index(
            o.free[i],
        )].state is Dead
    &&& o.free.no_duplicates()
}

impl ObjectsV {
    /// The object with a number.
    pub open spec fn object(self, id: u32) -> Option<Object> {
        let list = if id <= MAX_CLIENT {
            self.clients
        } else {
            self.servers
        };
        if id_index(id) < list.len() {
            Some(list[id_index(id)])
        } else {
            None
        }
    }

    /// The objects after a client made one, or the rule that the client broke.
    pub open spec fn registered(self, object: Object) -> Result<ObjectsV, Error> {
        let i = id_index(object.id);
        if object.id >= MIN_SERVER {
            Err(Error::ReservedObjectId { id: object.id })
        } else if i > self.clients.len() {
            Err(Error::SkippedObjectId { id: object.id })
        } else if i < self.clients.len() {
            Ok(ObjectsV { clients: self.clients.update(i, object), ..self })
        } else {
            Ok(ObjectsV { clients: self.clients.push(object), ..self })
        }
    }

    /// The number of the next object that the compositor makes, if one is left.
    pub open spec fn fresh_id(self) -> Option<u32> {
        if self.free.len() > 0 {
            Some(self.free.last())
        } else if self.next_server_id < u32::MAX {
            Some(self.next_server_id)
        } else {
            None
        }
    }

    /// The objects after the compositor made one.
    pub open spec fn created(self, object: Object) -> ObjectsV {
        if self.free.len() > 0 {
            ObjectsV {
                free: self.free.drop_last(),
                servers: self.servers.update(id_index(object.id), object),
                ..self
            }
        } else {
            ObjectsV {
                servers: self.servers.push(object),
                next_server_id: (self.next_server_id + 1) as u32,
                ..self
            }
        }
    }

    /// The objects after one ended. The number of an object of the compositor can be given again.
    pub open spec fn destroyed(self, id: u32) -> ObjectsV {
        let i = id_index(id);
        if id <= MAX_CLIENT {
            ObjectsV { clients: self.clients.update(i, Object { state: ObjectState::Dead, ..self.clients[i] }), ..self }
        } else {
            ObjectsV {
                servers: self.servers.update(i, Object { state: ObjectState::Dead, ..self.servers[i] }),
                free: self.free.push(id),
                ..self
            }
        }
    }

    /// What is sent when an object ends: a client may give its number again.
    pub open spec fn destroy_events(self, client: ClientId, id: u32) -> Seq<Action> {
        if id <= MAX_CLIENT {
            seq![Action::DeleteId { client, id }]
        } else {
            Seq::empty()
        }
    }
}

/// Calculates the place of an object among those of its maker.
pub fn id_as_index(id: u32) -> (r: usize)
    requires
        id != 0,
        id <= MAX_CLIENT || id >= MIN_SERVER,
    ensures
        r == id_index(id),
{
    if created_by_client(id) {
        (id - 1) as usize
    } else {
        (id - MIN_SERVER) as usize
    }
}

impl ObjectStorage {
    /// The display object and nothing else.
    pub fn new(interface: u32, key: u64) -> (r: Self)
        ensures
            r@ == (ObjectsV {
                clients: seq![Object { id: DISPLAY_ID, interface, version: 1, key, state: ObjectState::Alive }],
                servers: Seq::empty(),
                free: Seq::empty(),
                next_server_id: MIN_SERVER,
            }),
            objects_wf(r@),
    {
        let mut clients: Vec<Object> = Vec::new();
        clients.push(Object { id: DISPLAY_ID, interface, version: 1, key, state: ObjectState::Alive });
        let r = Self { clients, servers: Vec::new(), free_server_ids: Vec::new(), next_server_id: MIN_SERVER };
        assert(r@.clients =~= seq![
            Object { id: DISPLAY_ID, interface, version: 1, key, state: ObjectState::Alive },
        ]);
        r
    }

    /// The object with a number.
    pub fn get(&self, id: u32) -> (r: Option<Object>)
        requires
            id != 0,
        ensures
            r == self@.object(id),
    {
        if created_by_client(id) {
            let i = id_as_index(id);
            if i < self.clients.len() {
                Some(self.clients[i])
            } else {
                None
            }
        } else {
            let i = id_as_index(id);
            if i < self.servers.len() {
                Some(self.servers[i])
            } else {
                None
            }
        }
    }

    /// Whether a number still stands for the object with a key, and that object is alive.
    pub fn is_alive(&self, id: u32, key: u64) -> (r: bool)
        requires
            id != 0,
        ensures
            r == (self@.object(id) matches Some(object) && object.key == key && object.state == ObjectState::Alive),
    {
        match self.get(id) {
            Some(object) => object.key == key && object.state == ObjectState::Alive,
            None => false,
        }
    }

    /// Adds an object that the client made.
    pub fn register_clients(&mut self, object: Object) -> (r: Result<(), Error>)
        requires
            objects_wf(old(self)@),
            object.id != 0,
        ensures
            match old(self)@.registered(object) {
                Ok(o) => r == Ok::<(), Error>(()) && final(self)@ == o,
                Err(e) => r == Err::<(), Error>(e) && final(self)@ == old(self)@,
            },
            objects_wf(final(self)@),
    {
        if created_by_server(object.id) {
            return Err(Error::ReservedObjectId { id: object.id });
        }
        let idx = id_as_index(object.id);
        if idx > self.clients.len() {
            return Err(Error::SkippedObjectId { id: object.id });
        }
        if idx < self.clients.len() {
            self.clients.set(idx, object);
        } else {
            self.clients.push(object);
        }
        Ok(())
    }

    /// Makes an object of the compositor.
    pub fn create_servers(&mut self, interface: u32, version: u32, key: u64) -> (r: Result<Object, Error>)
        requires
            objects_wf(old(self)@),
        ensures
            match old(self)@.fresh_id() {
                Some(id) => {
                    let object = Object { id, interface, version, key, state: ObjectState::Alive };
                    &&& r == Ok::<Object, Error>(object)
                    &&& final(self)@ == old(self)@.created(object)
                },
                None => r == Err::<Object, Error>(Error::OutOfServerIds) && final(self)@ == old(self)@,
            },
            objects_wf(final(self)@),
    {
        let ghost o = self@;
        match self.free_server_ids.pop() {
            Some(id) => {
                let object = Object { id, interface, version, key, state: ObjectState::Alive };
                assert(id == o.free[o.free.len() - 1]);
                let idx = id_as_index(id);
                self.servers.set(idx, object);
                proof {
                    assert(self@ =~= o.created(object));
                    assert forall|i: int| 0 <= i < self@.free.len() implies MIN_SERVER <= #[trigger] self@.free[i]
                        < self@.next_server_id && self@.servers[id_index(self@.free[i])].state is Dead by {
                        assert(self@.free[i] == o.free[i]);
                        assert(o.free[i] != o.free[o.free.len() - 1]);
                    }
                    assert(self@.free.no_duplicates());
                }
                Ok(object)
            },
            None => {
                if self.next_server_id == u32::MAX {
                    return Err(Error::OutOfServerIds);
                }
                let id: u32 = self.next_server_id;
                self.next_server_id = id + 1;
                let object = Object { id, interface, version, key, state: ObjectState::Alive };
                self.servers.push(object);
                Ok(object)
            },
        }
    }

    /// Ends an object.
    pub fn destroy(&mut self, client: ClientId, id: u32, actions: &mut Vec<Action>)
        requires
            objects_wf(old(self)@),
            id != 0,
            old(self)@.object(id) matches Some(object) && object.state is Alive,
        ensures
            final(self)@ == old(self)@.destroyed(id),
            final(actions)@ == old(actions)@ + old(self)@.destroy_events(client, id),
            objects_wf(final(self)@),
    {
        let ghost o = self@;
        let ghost a0 = actions@;
        let idx = id_as_index(id);
        if created_by_client(id) {
            let object = self.clients[idx];
            self.clients.set(idx, Object { state: ObjectState::Dead, ..object });
            actions.push(Action::DeleteId { client, id });
        } else {
            let object = self.servers[idx];
            self.servers.set(idx, Object { state: ObjectState::Dead, ..object });
            self.reuse_servers_id(id);
            proof {
                assert forall|i: int| 0 <= i < o.free.len() implies #[trigger] o.free[i] != id by {
                    assert(o.servers[id_index(o.free[i])].state is Dead);
                }
                assert(self@.free.no_duplicates());
                assert forall|i: int| 0 <= i < self@.free.len() implies MIN_SERVER <= #[trigger] self@.free[i]
                    < self@.next_server_id && self@.servers[id_index(self@.free[i])].state is Dead by {
                    if i < o.free.len() {
                        assert(self@.free[i] == o.free[i]);
                    }
                }
            }
        }
        assert(self@ =~= o.destroyed(id));
        assert(actions@ =~= a0 + o.destroy_events(client, id));
    }

    /// Lets the number of an object of the compositor be given again.
    fn reuse_servers_id(&mut self, id: u32)
        requires
            id >= MIN_SERVER,
        ensures
            final(self)@ == (ObjectsV { free: old(self)@.free.push(id), ..old(self)@ }),
    {
        self.free_server_ids.push(id);
    }
}

/// A number that the compositor gives is not the number of an object that is alive, and then leads to
/// the new object. All other numbers lead where they led.
pub proof fn law_fresh_id(o: ObjectsV, object: Object, other: u32)
    requires
        objects_wf(o),
        o.fresh_id() == Some(object.id),
    ensures
        o.object(object.id) matches Some(before) ==> before.state is Dead,
        o.created(object).object(object.id) == Some(object),
        other != object.id && other != 0 ==> o.created(object).object(other) == o.object(other),
{
    if o.free.len() > 0 {
        assert(o.free[o.free.len() - 1] == object.id);
    }
}

/// A number that a client gives leads to the object that it was given to.
pub proof fn law_registered(o: ObjectsV, object: Object, other: u32)
    requires
        objects_wf(o),
        object.id != 0,
        o.registered(object) is Ok,
    ensures
        o.registered(object)->Ok_0.object(object.id) == Some(object),
        other != object.id && other != 0 ==> o.registered(object)->Ok_0.object(other) == o.object(other),
{
}

/// What an argument of a request has to be. Interfaces are known by their numbers.
#[derive(Debug)]
pub enum ArgSpec {
    Int,
    Uint,
    /// One of the values, or any number if values can be combined.
    Enum { bitfield: bool, values: Vec<u32> },
    Fixed,
    Object { allow_null: bool, interface: Option<u32> },
    NewId { interface: Option<u32> },
    String { allow_null: bool },
    Array,
    Fd,
}

/// An argument of a message. Texts, arrays and descriptors stay where they are.
#[derive(Debug, Clone, Copy, PartialEq, Eq, Structural)]
pub enum ArgValue {
    Int(i32),
    Uint(u32),
    Fixed(Fixed),
    Object(u32),
    OptObject(Option<u32>),
    NewId(u32),
    AnyNewId { version: u32, id: u32 },
    String,
    OptString,
    Array,
    Fd,
}

/// What an argument of a message means.
#[derive(Debug, Clone, Copy, PartialEq, Eq, Structural)]
pub enum Arg {
    /// An object.
    Object(Object),
    /// An object or none.
    OptObject(Option<Object>),
    /// What stands in the message.
    AsIs,
}

/// What a message is.
#[derive(Debug)]
pub struct MessageDesc {
    /// Whether the message ends the object.
    pub is_destructor: bool,
    pub signature: Vec<ArgSpec>,
}

/// The requests of an interface, each at the place of its number.
#[derive(Debug)]
pub struct InterfaceDesc {
    pub requests: Vec<MessageDesc>,
}

impl ObjectsV {
    /// The object with a number, if it is of an interface.
    pub open spec fn object_of(self, id: u32, interface: u32) -> Option<Object> {
        match self.object(id) {
            Some(object) if object.interface == interface => Some(object),
            _ => None,
        }
    }

    /// What an argument means, if it is what it has to be.
    pub open spec fn decoded(self, spec: ArgSpec, value: ArgValue) -> Option<Arg> {
        match (spec, value) {
            (ArgSpec::Int, ArgValue::Int(_)) => Some(Arg::AsIs),
            (ArgSpec::Uint, ArgValue::Uint(_)) => Some(Arg::AsIs),
            (ArgSpec::Enum { bitfield, values }, ArgValue::Uint(x)) => if bitfield || values@.contains(x) {
                Some(Arg::AsIs)
            } else {
                None
            },
            (ArgSpec::Fixed, ArgValue::Fixed(_)) => Some(Arg::AsIs),
            (ArgSpec::Object { allow_null: false, interface: None }, ArgValue::Object(_)) => Some(Arg::AsIs),
            (ArgSpec::Object { allow_null: true, interface: None }, ArgValue::OptObject(_)) => Some(Arg::AsIs),
            (ArgSpec::Object { allow_null: false, interface: Some(i) }, ArgValue::Object(id)) => match self.object_of(
                id,
                i,
            ) {
                Some(object) => Some(Arg::Object(object)),
                None => None,
            },
            (ArgSpec::Object { allow_null: true, interface: Some(i) }, ArgValue::OptObject(id)) => match id {
                None => Some(Arg::OptObject(None)),
                Some(id) => match self.object_of(id, i) {
                    Some(object) => Some(Arg::OptObject(Some(object))),
                    None => None,
                },
            },
            (ArgSpec::NewId { interface: Some(i) }, ArgValue::NewId(id)) => match self.object_of(id, i) {
                Some(object) => Some(Arg::Object(object)),
                None => None,
            },
            (ArgSpec::NewId { interface: None }, ArgValue::AnyNewId { .. }) => Some(Arg::AsIs),
            (ArgSpec::String { allow_null: false }, ArgValue::String) => Some(Arg::AsIs),
            (ArgSpec::String { allow_null: true }, ArgValue::OptString) => Some(Arg::AsIs),
            (ArgSpec::Array, ArgValue::Array) => Some(Arg::AsIs),
            (ArgSpec::Fd, ArgValue::Fd) => Some(Arg::AsIs),
            _ => None,
        }
    }
}

/// Whether no number in an argument is zero.
pub open spec fn ids_nonzero(value: ArgValue) -> bool {
    match value {
        ArgValue::Object(id) => id != 0,
        ArgValue::OptObject(Some(id)) => id != 0,
        ArgValue::NewId(id) => id != 0,
        ArgValue::AnyNewId { id, .. } => id != 0,
        _ => true,
    }
}

fn contains_value(values: &Vec<u32>, x: u32) -> (r: bool)
    ensures
        r == values@.contains(x),
{
    let mut i: usize = 0;
    while i < values.len()
        invariant
            i <= values.len(),
            forall|j: int| 0 <= j < i ==> values@[j] != x,
        decreases values.len() - i,
    {
        if values[i] == x {
            return true;
        }
        i = i + 1;
    }
    false
}

impl ObjectStorage {
    fn get_of(&self, id: u32, interface: u32) -> (r: Result<Object, WrongObject>)
        requires
            id != 0,
        ensures
            r is Ok == self@.object_of(id, interface) is Some,
            r matches Ok(object) ==> self@.object_of(id, interface) == Some(object),
    {
        match self.get(id) {
            Some(object) => if object.interface == interface {
                Ok(object)
            } else {
                Err(WrongObject)
            },
            None => Err(WrongObject),
        }
    }

    /// Finds out what an argument means.
    pub fn decode(&self, spec: &ArgSpec, value: ArgValue) -> (r: Option<Arg>)
        requires
            ids_nonzero(value),
        ensures
            r == self@.decoded(*spec, value),
    {
        match (spec, value) {
            (ArgSpec::Int, ArgValue::Int(_)) => Some(Arg::AsIs),
            (ArgSpec::Uint, ArgValue::Uint(_)) => Some(Arg::AsIs),
            (ArgSpec::Enum { bitfield, values }, ArgValue::Uint(x)) => {
                if *bitfield || contains_value(values, x) {
                    Some(Arg::AsIs)
                } else {
                    None
                }
            },
            (ArgSpec::Fixed, ArgValue::Fixed(_)) => Some(Arg::AsIs),
            (ArgSpec::Object { allow_null, interface }, ArgValue::Object(id)) => {
                if *allow_null {
                    return None;
                }
                match interface {
                    None => Some(Arg::AsIs),
                    Some(i) => match self.get_of(id, *i) {
                        Ok(object) => Some(Arg::Object(object)),
                        Err(_) => None,
                    },
                }
            },
            (ArgSpec::Object { allow_null, interface }, ArgValue::OptObject(id)) => {
                if !*allow_null {
                    return None;
                }
                match (interface, id) {
                    (None, _) => Some(Arg::AsIs),
                    (Some(_), None) => Some(Arg::OptObject(None)),
                    (Some(i), Some(id)) => match self.get_of(id, *i) {
                        Ok(object) => Some(Arg::OptObject(Some(object))),
                        Err(_) => None,
                    },
                }
            },
            (ArgSpec::NewId { interface: Some(i) }, ArgValue::NewId(id)) => match self.get_of(id, *i) {
                Ok(object) => Some(Arg::Object(object)),
                Err(_) => None,
            },
            (ArgSpec::NewId { interface: None }, ArgValue::AnyNewId { .. }) => Some(Arg::AsIs),
            (ArgSpec::String { allow_null }, ArgValue::String) => if *allow_null {
                None
            } else {
                Some(Arg::AsIs)
            },
            (ArgSpec::String { allow_null }, ArgValue::OptString) => if *allow_null {
                Some(Arg::AsIs)
            } else {
                None
            },
            (ArgSpec::Array, ArgValue::Array) => Some(Arg::AsIs),
            (ArgSpec::Fd, ArgValue::Fd) => Some(Arg::AsIs),
            _ => None,
        }
    }

    /// Finds out what the arguments of a request mean. A request fails if an argument is missing, is
    /// too many or is not what it has to be.
    pub fn parse_request(&self, signature: &Vec<ArgSpec>, args: &Vec<ArgValue>) -> (r: Result<Vec<Arg>, BadMessage>)
        requires
            forall|i: int| 0 <= i < args@.len() ==> ids_nonzero(#[trigger] args@[i]),
        ensures
            r is Ok == (args@.len() == signature@.len() && forall|i: int|
                0 <= i < args@.len() ==> self@.decoded(signature@[i], #[trigger] args@[i]) is Some),
            r matches Ok(v) ==> v@.len() == args@.len() && forall|i: int|
                0 <= i < v@.len() ==> self@.decoded(signature@[i], args@[i]) == Some(#[trigger] v@[i]),
    {
        if args.len() != signature.len() {
            return Err(BadMessage);
        }
        let mut v: Vec<Arg> = Vec::new();
        let mut i: usize = 0;
        while i < args.len()
            invariant
                i <= args.len(),
                args@.len() == signature@.len(),
                forall|j: int| 0 <= j < args@.len() ==> ids_nonzero(#[trigger] args@[j]),
                v@.len() == i,
                forall|j: int|
                    0 <= j < v@.len() ==> self@.decoded(signature@[j], args@[j]) == Some(#[trigger] v@[j]),
            decreases args.len() - i,
        {
            match self.decode(&signature[i], args[i]) {
                Some(arg) => {
                    v.push(arg);
                },
                None => {
                    assert(self@.decoded(signature@[i as int], args@[i as int]) is None);
                    return Err(BadMessage);
                },
            }
            i = i + 1;
        }
        assert forall|j: int| 0 <= j < args@.len() implies self@.decoded(signature@[j], #[trigger] args@[j]) is Some by {
            assert(self@.decoded(signature@[j], args@[j]) == Some(v@[j]));
        }
        Ok(v)
    }

    /// Finds the object and the request that a message is for.
    pub fn recv_request(&self, interfaces: &Vec<InterfaceDesc>, object_id: u32, opcode: u16) -> (r: Result<
        Object,
        Error,
    >)
        requires
            object_id != 0,
            self@.object(object_id) matches Some(object) ==> object.interface < interfaces.len(),
        ensures
            r == (match self@.object(object_id) {
                None => Err::<Object, Error>(Error::UnknownObject),
                Some(object) => if opcode < interfaces@[object.interface as int].requests@.len() {
                    Ok::<Object, Error>(object)
                } else {
                    Err::<Object, Error>(Error::InvalidOpcode)
                },
            }),
    {
        match self.get(object_id) {
            None => Err(Error::UnknownObject),
            Some(object) => {
                if (opcode as usize) < interfaces[object.interface as usize].requests.len() {
                    Ok(object)
                } else {
                    Err(Error::InvalidOpcode)
                }
            },
        }
    }

    /// Adds the objects that a request makes. Each gets the version of the object that the request is
    /// for, and the next key.
    pub fn register_new_ids(&mut self, signature: &Vec<ArgSpec>, args: &Vec<ArgValue>, version: u32, next_key: &mut u64) -> (r:
        Result<(), Error>)
        requires
            objects_wf(old(self)@),
            args@.len() <= signature@.len(),
            forall|i: int| 0 <= i < args@.len() ==> ids_nonzero(#[trigger] args@[i]),
            *old(next_key) + args@.len() <= u64::MAX,
        ensures
            ({
                let m = old(self)@.made(signature@, args@, version, *old(next_key));
                &&& final(self)@ == m.objects
                &&& *final(next_key) == m.next_key
                &&& r == m.result
            }),
            objects_wf(final(self)@),
    {
        let ghost o = self@;
        let ghost k0 = *next_key;
        let mut i: usize = 0;
        assert(args@.take(0) =~= Seq::<ArgValue>::empty());
        while i < args.len()
            invariant
                i <= args.len(),
                args@.len() <= signature@.len(),
                forall|j: int| 0 <= j < args@.len() ==> ids_nonzero(#[trigger] args@[j]),
                objects_wf(self@),
                o == old(self)@,
                k0 == *old(next_key),
                k0 + args@.len() <= u64::MAX,
                k0 <= *next_key <= k0 + i,
                ({
                    let m = o.made(signature@, args@.take(i as int), version, k0);
                    m.objects == self@ && m.next_key == *next_key && m.result == Ok::<(), Error>(())
                }),
            decreases args.len() - i,
        {
            assert(args@.take(i + 1).drop_last() =~= args@.take(i as int));
            if let (ArgSpec::NewId { interface: Some(interface) }, ArgValue::NewId(id)) = (&signature[i], args[i]) {
                let object = Object {
                    id,
                    interface: *interface,
                    version,
                    key: *next_key,
                    state: ObjectState::Alive,
                };
                *next_key = *next_key + 1;
                if let Err(e) = self.register_clients(object) {
                    proof {
                        lemma_made_stops(o, signature@, args@, version, k0, i + 1);
                    }
                    return Err(e);
                }
            }
            i = i + 1;
        }
        assert(args@.take(i as int) =~= args@);
        Ok(())
    }
}

/// What comes of making the objects of a request.
#[verifier::ext_equal]
pub struct Made {
    pub objects: ObjectsV,
    pub next_key: u64,
    pub result: Result<(), Error>,
}

impl ObjectsV {
    /// What comes of making the objects of a request, up to the first one that breaks a rule.
    pub open spec fn made(self, signature: Seq<ArgSpec>, args: Seq<ArgValue>, version: u32, key: u64) -> Made
        decreases args.len(),
    {
        if args.len() == 0 {
            Made { objects: self, next_key: key, result: Ok(()) }
        } else {
            let before = self.made(signature, args.drop_last(), version, key);
            match (signature[args.len() - 1], args.last()) {
                (ArgSpec::NewId { interface: Some(interface) }, ArgValue::NewId(id)) if before.result is Ok => {
                    let object = Object {
                        id,
                        interface,
                        version,
                        key: before.next_key,
                        state: ObjectState::Alive,
                    };
                    match before.objects.registered(object) {
                        Ok(objects) => Made { objects, next_key: (before.next_key + 1) as u64, result: Ok(()) },
                        Err(e) => Made { next_key: (before.next_key + 1) as u64, result: Err(e), ..before },
                    }
                },
                _ => before,
            }
        }
    }
}

proof fn lemma_made_stops(o: ObjectsV, signature: Seq<ArgSpec>, args: Seq<ArgValue>, version: u32, key: u64, n: int)
    requires
        0 <= n <= args.len(),
        o.made(signature, args.take(n), version, key).result is Err,
    ensures
        o.made(signature, args, version, key) == o.made(signature, args.take(n), version, key),
    decreases args.len() - n,
{
    if n == args.len() {
        assert(args.take(n) =~= args);
    } else {
        assert(args.take(n + 1).drop_last() =~= args.take(n));
        lemma_made_stops(o, signature, args, version, key, n + 1);
    }
}

/// An object that a request speaks of is the one with the number in the message, and of the interface
/// that is asked for.
pub proof fn law_decoded_object(o: ObjectsV, spec: ArgSpec, value: ArgValue, object: Object)
    requires
        o.decoded(spec, value) == Some(Arg::Object(object)),
    ensures
        match value {
            ArgValue::Object(id) => o.object(id) == Some(object) && spec == (ArgSpec::Object {
                allow_null: false,
                interface: Some(object.interface),
            }),
            ArgValue::NewId(id) => o.object(id) == Some(object) && spec == (ArgSpec::NewId {
                interface: Some(object.interface),
            }),
            _ => false,
        },
{
}

} // verus!
