use ewc::client::ClientId;
use ewc::error::Error;
use ewc::protocol::{Action, Fixed};
use ewc::wayland_core::{
    id_as_index, Arg, ArgSpec, ArgValue, BadMessage, InterfaceDesc, MessageDesc, Object, ObjectState, ObjectStorage,
    MIN_SERVER,
};

const DISPLAY: u32 = 0;
const SURFACE: u32 = 1;
const REGION: u32 = 2;

fn object(id: u32, interface: u32, key: u64) -> Object {
    Object { id, interface, version: 1, key, state: ObjectState::Alive }
}

#[test]
fn display_is_the_first_object() {
    let storage = ObjectStorage::new(DISPLAY, 7);
    assert_eq!(storage.get(1), Some(object(1, DISPLAY, 7)));
    assert_eq!(storage.get(2), None);
    assert_eq!(storage.get(MIN_SERVER), None);
    assert_eq!(id_as_index(1), 0);
    assert_eq!(id_as_index(0xfeff_ffff), 0xfeff_fffe);
    assert_eq!(id_as_index(MIN_SERVER + 3), 3);
}

#[test]
fn clients_give_numbers_in_order() {
    let mut storage = ObjectStorage::new(DISPLAY, 0);
    assert_eq!(storage.register_clients(object(3, SURFACE, 1)), Err(Error::SkippedObjectId { id: 3 }));
    assert_eq!(storage.register_clients(object(2, SURFACE, 1)), Ok(()));
    assert_eq!(storage.register_clients(object(3, REGION, 2)), Ok(()));
    assert_eq!(storage.register_clients(object(2, REGION, 3)), Ok(()));
    assert_eq!(storage.get(2), Some(object(2, REGION, 3)));
    assert_eq!(storage.get(3), Some(object(3, REGION, 2)));
    assert_eq!(
        storage.register_clients(object(MIN_SERVER, SURFACE, 4)),
        Err(Error::ReservedObjectId { id: MIN_SERVER })
    );
}

#[test]
fn numbers_of_the_compositor_are_given_again() {
    let client = ClientId::first();
    let mut storage = ObjectStorage::new(DISPLAY, 0);
    let mut actions = Vec::new();
    let a = storage.create_servers(SURFACE, 3, 1).unwrap();
    let b = storage.create_servers(SURFACE, 3, 2).unwrap();
    assert_eq!((a.id, b.id), (MIN_SERVER, MIN_SERVER + 1));
    assert_eq!(storage.get(b.id), Some(b));
    assert!(storage.is_alive(a.id, 1));
    assert!(!storage.is_alive(a.id, 2));
    storage.destroy(client, a.id, &mut actions);
    assert_eq!(actions, vec![]);
    assert!(!storage.is_alive(a.id, 1));
    assert_eq!(storage.get(a.id).unwrap().state, ObjectState::Dead);
    let c = storage.create_servers(REGION, 1, 3).unwrap();
    assert_eq!(c.id, a.id);
    assert_eq!(storage.get(a.id), Some(c));
    assert_eq!(storage.get(b.id), Some(b));
    assert_eq!(storage.create_servers(REGION, 1, 4).unwrap().id, MIN_SERVER + 2);
}

#[test]
fn client_is_told_of_an_ended_object() {
    let client = ClientId::first();
    let mut storage = ObjectStorage::new(DISPLAY, 0);
    let mut actions = Vec::new();
    storage.register_clients(object(2, SURFACE, 1)).unwrap();
    storage.destroy(client, 2, &mut actions);
    assert_eq!(actions, vec![Action::DeleteId { client, id: 2 }]);
    assert_eq!(storage.get(2).unwrap().state, ObjectState::Dead);
}

#[test]
fn objects_of_the_compositor_run_out() {
    let mut storage = ObjectStorage::new(DISPLAY, 0);
    let mut last = 0;
    for key in 0..0x00ff_ffff {
        last = storage.create_servers(SURFACE, 1, key).unwrap().id;
    }
    assert_eq!(last, u32::MAX - 1);
    assert_eq!(storage.create_servers(SURFACE, 1, 0), Err(Error::OutOfServerIds));
}

#[test]
fn request_is_for_a_known_object_and_number() {
    let mut storage = ObjectStorage::new(DISPLAY, 0);
    storage.register_clients(object(2, SURFACE, 1)).unwrap();
    let message = || MessageDesc { is_destructor: false, signature: vec![] };
    let interfaces = vec![
        InterfaceDesc { requests: vec![message(), message()] },
        InterfaceDesc { requests: vec![message()] },
    ];
    assert_eq!(storage.recv_request(&interfaces, 1, 1), Ok(object(1, DISPLAY, 0)));
    assert_eq!(storage.recv_request(&interfaces, 2, 1), Err(Error::InvalidOpcode));
    assert_eq!(storage.recv_request(&interfaces, 3, 0), Err(Error::UnknownObject));
}

#[test]
fn arguments_have_to_be_what_they_are_taken_for() {
    let mut storage = ObjectStorage::new(DISPLAY, 0);
    let surface = object(2, SURFACE, 1);
    storage.register_clients(surface).unwrap();
    let of = |allow_null, interface| ArgSpec::Object { allow_null, interface };
    assert_eq!(storage.decode(&ArgSpec::Int, ArgValue::Int(-3)), Some(Arg::AsIs));
    assert_eq!(storage.decode(&ArgSpec::Int, ArgValue::Uint(3)), None);
    assert_eq!(storage.decode(&ArgSpec::Fixed, ArgValue::Fixed(Fixed(1))), Some(Arg::AsIs));
    assert_eq!(storage.decode(&of(false, Some(SURFACE)), ArgValue::Object(2)), Some(Arg::Object(surface)));
    assert_eq!(storage.decode(&of(false, Some(REGION)), ArgValue::Object(2)), None);
    assert_eq!(storage.decode(&of(false, Some(SURFACE)), ArgValue::Object(3)), None);
    assert_eq!(storage.decode(&of(false, Some(SURFACE)), ArgValue::OptObject(Some(2))), None);
    assert_eq!(storage.decode(&of(true, Some(SURFACE)), ArgValue::OptObject(None)), Some(Arg::OptObject(None)));
    assert_eq!(
        storage.decode(&of(true, Some(SURFACE)), ArgValue::OptObject(Some(2))),
        Some(Arg::OptObject(Some(surface)))
    );
    assert_eq!(storage.decode(&of(false, None), ArgValue::Object(99)), Some(Arg::AsIs));
    let new_id = ArgSpec::NewId { interface: Some(SURFACE) };
    assert_eq!(storage.decode(&new_id, ArgValue::NewId(2)), Some(Arg::Object(surface)));
    assert_eq!(storage.decode(&new_id, ArgValue::NewId(1)), None);
    let one_of = |bitfield| ArgSpec::Enum { bitfield, values: vec![1, 4] };
    assert_eq!(storage.decode(&one_of(false), ArgValue::Uint(4)), Some(Arg::AsIs));
    assert_eq!(storage.decode(&one_of(false), ArgValue::Uint(5)), None);
    assert_eq!(storage.decode(&one_of(true), ArgValue::Uint(5)), Some(Arg::AsIs));
    assert_eq!(storage.decode(&ArgSpec::String { allow_null: false }, ArgValue::OptString), None);
    assert_eq!(storage.decode(&ArgSpec::String { allow_null: true }, ArgValue::OptString), Some(Arg::AsIs));
}

#[test]
fn request_needs_all_its_arguments() {
    let storage = ObjectStorage::new(DISPLAY, 0);
    let signature = vec![ArgSpec::Int, ArgSpec::Fd];
    assert_eq!(
        storage.parse_request(&signature, &vec![ArgValue::Int(1), ArgValue::Fd]),
        Ok(vec![Arg::AsIs, Arg::AsIs])
    );
    assert_eq!(storage.parse_request(&signature, &vec![ArgValue::Int(1)]), Err(BadMessage));
    assert_eq!(storage.parse_request(&signature, &vec![ArgValue::Fd, ArgValue::Int(1)]), Err(BadMessage));
    assert_eq!(BadMessage.error(), Error::BadMessage);
}

#[test]
fn new_objects_get_the_version_of_their_maker() {
    let mut storage = ObjectStorage::new(DISPLAY, 0);
    let mut next_key = 10;
    let new_id = |interface| ArgSpec::NewId { interface: Some(interface) };
    let signature = vec![new_id(SURFACE), ArgSpec::Int, new_id(REGION)];
    let args = vec![ArgValue::NewId(2), ArgValue::Int(0), ArgValue::NewId(3)];
    assert_eq!(storage.register_new_ids(&signature, &args, 4, &mut next_key), Ok(()));
    assert_eq!(storage.get(2), Some(Object { version: 4, ..object(2, SURFACE, 10) }));
    assert_eq!(storage.get(3), Some(Object { version: 4, ..object(3, REGION, 11) }));
    assert_eq!(next_key, 12);
    let args = vec![ArgValue::NewId(4), ArgValue::Int(0), ArgValue::NewId(9)];
    assert_eq!(
        storage.register_new_ids(&signature, &args, 4, &mut next_key),
        Err(Error::SkippedObjectId { id: 9 })
    );
    assert_eq!(storage.get(4), Some(Object { version: 4, ..object(4, SURFACE, 12) }));
}
