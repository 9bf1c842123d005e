//! What has to be known of the interfaces of protocols to read requests and to write events.
use vstd::prelude::*;

use crate::codegen::ArgCode;
use crate::protocol_text::{
    interface_views, maybe_chars, ArgumentText, EntryV, EnumText, EnumV, InterfaceText, InterfaceV, KindV, MessageText,
    MessageV,
};
use crate::scanner::{is_destructor, law_split_is_one, split_at_dot, split_once, ArgKind, WireType};
use crate::wayland_core::{ArgSpec, InterfaceDesc, MessageDesc};

verus! {

/// Whether a name stands in a place, and in none before it.
pub open spec fn is_first(names: Seq<Seq<char>>, name: Seq<char>, i: int) -> bool {
    &&& 0 <= i < names.len()
    &&& names[i] == name
    &&& forall|j: int| 0 <= j < i ==> #[trigger] names[j] != name
}

/// The first place of a name, if it has one.
pub open spec fn place_of(names: Seq<Seq<char>>, name: Seq<char>) -> Option<int> {
    if exists|i: int| is_first(names, name, i) {
        Some(choose|i: int| is_first(names, name, i))
    } else {
        None
    }
}

proof fn lemma_place(names: Seq<Seq<char>>, name: Seq<char>, i: int)
    requires
        is_first(names, name, i),
    ensures
        place_of(names, name) == Some(i),
{
    let k = choose|k: int| is_first(names, name, k);
    assert(is_first(names, name, k));
    assert(names[k] == name && names[i] == name);
}

/// The names of interfaces.
pub open spec fn interface_names(s: Seq<InterfaceV>) -> Seq<Seq<char>> {
    Seq::new(s.len(), |i: int| s[i].name)
}

/// The names of messages.
pub open spec fn message_names(s: Seq<MessageV>) -> Seq<Seq<char>> {
    Seq::new(s.len(), |i: int| s[i].name)
}

/// The names of enums.
pub open spec fn enum_names(s: Seq<EnumV>) -> Seq<Seq<char>> {
    Seq::new(s.len(), |i: int| s[i].name)
}

/// The names of the values of an enum.
pub open spec fn entry_names(s: Seq<EntryV>) -> Seq<Seq<char>> {
    Seq::new(s.len(), |i: int| s[i].name)
}

/// The values of an enum.
pub open spec fn entry_values(s: Seq<EntryV>) -> Seq<u32> {
    Seq::new(s.len(), |i: int| s[i].value)
}

/// What messages say.
pub open spec fn message_views(s: Seq<MessageText>) -> Seq<MessageV> {
    Seq::new(s.len(), |i: int| s[i]@)
}

/// The interface and the name of the enum that a type in an interface names, if the interface is known.
pub open spec fn enum_home(s: Seq<InterfaceV>, own: int, name: Seq<char>) -> Option<(int, Seq<char>)> {
    if name.contains('.') {
        let (iface, rest) = choose|iface: Seq<char>, rest: Seq<char>| split_at_dot(name, iface, rest);
        match place_of(interface_names(s), iface) {
            Some(i) => Some((i, rest)),
            None => None,
        }
    } else {
        Some((own, name))
    }
}

/// The enum that a type in an interface names, if it is known.
pub open spec fn enum_named(s: Seq<InterfaceV>, own: int, name: Seq<char>) -> Option<EnumV> {
    match enum_home(s, own, name) {
        Some((i, rest)) => match place_of(enum_names(s[i].enums), rest) {
            Some(k) => Some(s[i].enums[k]),
            None => None,
        },
        None => None,
    }
}

/// Whether what the type of an argument in an interface names is known.
pub open spec fn kind_known(s: Seq<InterfaceV>, own: int, kind: KindV) -> bool {
    match kind {
        KindV::Enum(name) => enum_named(s, own, name) is Some,
        _ => kind.iface_name() matches Some(name) ==> place_of(interface_names(s), name) is Some,
    }
}

/// The number of the interface with a name, if a name is given.
pub open spec fn interface_number(s: Seq<InterfaceV>, name: Option<Seq<char>>) -> Option<u32> {
    match name {
        Some(name) => Some(place_of(interface_names(s), name)->0 as u32),
        None => None,
    }
}

/// Whether this is what an argument of a type in an interface has to be.
pub open spec fn spec_is_for(spec: ArgSpec, s: Seq<InterfaceV>, own: int, kind: KindV) -> bool {
    match kind {
        KindV::Int => spec == ArgSpec::Int,
        KindV::Uint => spec == ArgSpec::Uint,
        KindV::Enum(name) => {
            let e = enum_named(s, own, name)->0;
            spec matches ArgSpec::Enum { bitfield, values } && bitfield == e.is_bitfield && values@ == entry_values(
                e.items,
            )
        },
        KindV::Fixed => spec == ArgSpec::Fixed,
        KindV::Object { allow_null, iface } => spec == (ArgSpec::Object {
            allow_null,
            interface: interface_number(s, iface),
        }),
        KindV::NewId { iface } => spec == (ArgSpec::NewId { interface: interface_number(s, iface) }),
        KindV::Text { allow_null } => spec == (ArgSpec::String { allow_null }),
        KindV::Array => spec == ArgSpec::Array,
        KindV::Fd => spec == ArgSpec::Fd,
    }
}

/// Whether what the arguments of a message of an interface name is known.
pub open spec fn message_known(s: Seq<InterfaceV>, own: int, message: MessageV) -> bool {
    forall|i: int| 0 <= i < message.args.len() ==> kind_known(s, own, (#[trigger] message.args[i]).kind)
}

/// Whether this is what a request of an interface has to be.
pub open spec fn request_is_for(desc: MessageDesc, s: Seq<InterfaceV>, own: int, request: MessageV) -> bool {
    &&& desc.is_destructor == (request.kind == Some("destructor"@))
    &&& desc.signature@.len() == request.args.len()
    &&& forall|i: int|
        0 <= i < request.args.len() ==> spec_is_for(#[trigger] desc.signature@[i], s, own, request.args[i].kind)
}

/// Whether what the requests of an interface name is known.
pub open spec fn requests_known(s: Seq<InterfaceV>, own: int) -> bool {
    forall|i: int| 0 <= i < s[own].requests.len() ==> message_known(s, own, #[trigger] s[own].requests[i])
}

/// Whether this is what the requests of an interface have to be.
pub open spec fn desc_is_for(desc: InterfaceDesc, s: Seq<InterfaceV>, own: int) -> bool {
    &&& desc.requests@.len() == s[own].requests.len()
    &&& forall|i: int|
        0 <= i < s[own].requests.len() ==> request_is_for(#[trigger] desc.requests@[i], s, own, s[own].requests[i])
}

fn same(a: &Vec<char>, b: &Vec<char>) -> (r: bool)
    ensures
        r == (a@ == b@),
{
    if a.len() != b.len() {
        return false;
    }
    let mut i: usize = 0;
    while i < a.len()
        invariant
            i <= a.len(),
            a@.len() == b@.len(),
            forall|j: int| 0 <= j < i ==> a@[j] == b@[j],
        decreases a.len() - i,
    {
        if a[i] != b[i] {
            return false;
        }
        i = i + 1;
    }
    assert(a@ =~= b@);
    true
}

/// The place of the interface with a name.
pub fn find_interface(interfaces: &Vec<InterfaceText>, name: &Vec<char>) -> (r: Option<usize>)
    ensures
        match r {
            Some(i) => place_of(interface_names(interface_views(interfaces@)), name@) == Some(i as int) && i
                < interfaces@.len(),
            None => place_of(interface_names(interface_views(interfaces@)), name@) is None,
        },
{
    let ghost names = interface_names(interface_views(interfaces@));
    let mut i: usize = 0;
    while i < interfaces.len()
        invariant
            i <= interfaces.len(),
            names == interface_names(interface_views(interfaces@)),
            forall|j: int| 0 <= j < i ==> #[trigger] names[j] != name@,
        decreases interfaces.len() - i,
    {
        assert(names[i as int] == interfaces@[i as int].name@);
        if same(&interfaces[i].name, name) {
            proof {
                lemma_place(names, name@, i as int);
            }
            return Some(i);
        }
        i = i + 1;
    }
    None
}

/// The number of the message with a name.
pub fn find_message(messages: &Vec<MessageText>, name: &Vec<char>) -> (r: Option<usize>)
    ensures
        match r {
            Some(i) => place_of(message_names(message_views(messages@)), name@) == Some(i as int) && i < messages@.len(),
            None => place_of(message_names(message_views(messages@)), name@) is None,
        },
{
    let ghost names = message_names(message_views(messages@));
    let mut i: usize = 0;
    while i < messages.len()
        invariant
            i <= messages.len(),
            names == message_names(message_views(messages@)),
            forall|j: int| 0 <= j < i ==> #[trigger] names[j] != name@,
        decreases messages.len() - i,
    {
        assert(names[i as int] == messages@[i as int].name@);
        if same(&messages[i].name, name) {
            proof {
                lemma_place(names, name@, i as int);
            }
            return Some(i);
        }
        i = i + 1;
    }
    None
}

fn find_enum_here(enums: &Vec<EnumText>, name: &Vec<char>, Ghost(views): Ghost<Seq<EnumV>>) -> (r: Option<usize>)
    requires
        views == Seq::new(enums@.len(), |i: int| enums@[i]@),
    ensures
        match r {
            Some(i) => place_of(enum_names(views), name@) == Some(i as int) && i < enums@.len(),
            None => place_of(enum_names(views), name@) is None,
        },
{
    let ghost names = enum_names(views);
    let mut i: usize = 0;
    while i < enums.len()
        invariant
            i <= enums.len(),
            names == enum_names(views),
            views == Seq::new(enums@.len(), |i: int| enums@[i]@),
            forall|j: int| 0 <= j < i ==> #[trigger] names[j] != name@,
        decreases enums.len() - i,
    {
        assert(names[i as int] == enums@[i as int].name@);
        if same(&enums[i].name, name) {
            proof {
                lemma_place(names, name@, i as int);
            }
            return Some(i);
        }
        i = i + 1;
    }
    None
}

/// The enum that a type in an interface names.
pub fn find_enum<'a>(interfaces: &'a Vec<InterfaceText>, own: usize, name: &Vec<char>) -> (r: Option<&'a EnumText>)
    requires
        own < interfaces@.len(),
    ensures
        match r {
            Some(e) => enum_named(interface_views(interfaces@), own as int, name@) == Some(e@),
            None => enum_named(interface_views(interfaces@), own as int, name@) is None,
        },
{
    let ghost s = interface_views(interfaces@);
    match split_once(name) {
        Some((iface, rest)) => {
            proof {
                let (a, b) = choose|a: Seq<char>, b: Seq<char>| split_at_dot(name@, a, b);
                assert(split_at_dot(name@, iface@, rest@));
                law_split_is_one(name@, a, b, iface@, rest@);
            }
            match find_interface(interfaces, &iface) {
                Some(i) => {
                    let enums = &interfaces[i].enums;
                    assert(s[i as int] == interfaces@[i as int]@);
                    match find_enum_here(enums, &rest, Ghost(s[i as int].enums)) {
                        Some(k) => Some(&enums[k]),
                        None => None,
                    }
                },
                None => None,
            }
        },
        None => {
            let enums = &interfaces[own].enums;
            assert(s[own as int] == interfaces@[own as int]@);
            match find_enum_here(enums, name, Ghost(s[own as int].enums)) {
                Some(k) => Some(&enums[k]),
                None => None,
            }
        },
    }
}

/// The value with a name of an enum.
pub fn enum_value(e: &EnumText, name: &Vec<char>) -> (r: Option<u32>)
    ensures
        r == (match place_of(entry_names(e@.items), name@) {
            Some(i) => Some(e@.items[i].value),
            None => None,
        }),
{
    let ghost names = entry_names(e@.items);
    let mut i: usize = 0;
    while i < e.items.len()
        invariant
            i <= e.items.len(),
            names == entry_names(e@.items),
            forall|j: int| 0 <= j < i ==> #[trigger] names[j] != name@,
        decreases e.items.len() - i,
    {
        assert(names[i as int] == e.items@[i as int].name@);
        if same(&e.items[i].name, name) {
            proof {
                lemma_place(names, name@, i as int);
            }
            return Some(e.items[i].value);
        }
        i = i + 1;
    }
    None
}

fn values_of(e: &EnumText) -> (r: Vec<u32>)
    ensures
        r@ == entry_values(e@.items),
{
    let mut r: Vec<u32> = Vec::new();
    let mut i: usize = 0;
    while i < e.items.len()
        invariant
            i <= e.items.len(),
            r@.len() == i,
            forall|j: int| 0 <= j < i ==> #[trigger] r@[j] == e.items@[j].value,
        decreases e.items.len() - i,
    {
        r.push(e.items[i].value);
        i = i + 1;
    }
    assert(r@ =~= entry_values(e@.items));
    r
}

/// The number of the interface with a name, if a name is given and the interface is known.
fn number_of(interfaces: &Vec<InterfaceText>, name: &Option<Vec<char>>) -> (r: Result<Option<u32>, ()>)
    requires
        interfaces@.len() <= u32::MAX,
    ensures
        ({
            let s = interface_views(interfaces@);
            let name = maybe_chars(*name);
            &&& r is Ok == (name matches Some(n) ==> place_of(interface_names(s), n) is Some)
            &&& r matches Ok(number) ==> number == interface_number(s, name)
        }),
{
    match name {
        Some(name) => match find_interface(interfaces, name) {
            Some(i) => Ok(Some(i as u32)),
            None => Err(()),
        },
        None => Ok(None),
    }
}

/// What an argument of a type in an interface has to be, if what the type names is known.
pub fn arg_spec(interfaces: &Vec<InterfaceText>, own: usize, kind: &ArgKind) -> (r: Option<ArgSpec>)
    requires
        own < interfaces@.len() <= u32::MAX,
    ensures
        r is Some == kind_known(interface_views(interfaces@), own as int, kind@),
        r matches Some(spec) ==> spec_is_for(spec, interface_views(interfaces@), own as int, kind@),
{
    match kind {
        ArgKind::Int => Some(ArgSpec::Int),
        ArgKind::Uint => Some(ArgSpec::Uint),
        ArgKind::Enum(name) => match find_enum(interfaces, own, name) {
            Some(e) => Some(ArgSpec::Enum { bitfield: e.is_bitfield, values: values_of(e) }),
            None => None,
        },
        ArgKind::Fixed => Some(ArgSpec::Fixed),
        ArgKind::Object { allow_null, iface } => match number_of(interfaces, iface) {
            Ok(interface) => Some(ArgSpec::Object { allow_null: *allow_null, interface }),
            Err(_) => None,
        },
        ArgKind::NewId { iface } => match number_of(interfaces, iface) {
            Ok(interface) => Some(ArgSpec::NewId { interface }),
            Err(_) => None,
        },
        ArgKind::Text { allow_null } => Some(ArgSpec::String { allow_null: *allow_null }),
        ArgKind::Array => Some(ArgSpec::Array),
        ArgKind::Fd => Some(ArgSpec::Fd),
    }
}

fn request_desc(interfaces: &Vec<InterfaceText>, own: usize, request: &MessageText) -> (r: Option<MessageDesc>)
    requires
        own < interfaces@.len() <= u32::MAX,
    ensures
        r is Some == message_known(interface_views(interfaces@), own as int, request@),
        r matches Some(desc) ==> request_is_for(desc, interface_views(interfaces@), own as int, request@),
{
    let ghost s = interface_views(interfaces@);
    let mut signature: Vec<ArgSpec> = Vec::new();
    let mut i: usize = 0;
    while i < request.args.len()
        invariant
            i <= request.args.len(),
            own < interfaces@.len() <= u32::MAX,
            s == interface_views(interfaces@),
            signature@.len() == i,
            forall|j: int| 0 <= j < i ==> kind_known(s, own as int, (#[trigger] request@.args[j]).kind),
            forall|j: int|
                0 <= j < i ==> spec_is_for(#[trigger] signature@[j], s, own as int, request@.args[j].kind),
        decreases request.args.len() - i,
    {
        assert(request@.args[i as int] == request.args@[i as int]@);
        match arg_spec(interfaces, own, &request.args[i].kind) {
            Some(spec) => signature.push(spec),
            None => return None,
        }
        i = i + 1;
    }
    Some(MessageDesc { is_destructor: is_destructor(&request.kind), signature })
}

/// What the requests of the interfaces of protocols have to be, if everything that they name is known.
pub fn interface_descs(interfaces: &Vec<InterfaceText>) -> (r: Option<Vec<InterfaceDesc>>)
    requires
        interfaces@.len() <= u32::MAX,
    ensures
        ({
            let s = interface_views(interfaces@);
            &&& r is Some == (forall|i: int| 0 <= i < s.len() ==> #[trigger] requests_known(s, i))
            &&& r matches Some(descs) ==> descs@.len() == s.len() && forall|i: int|
                0 <= i < s.len() ==> desc_is_for(#[trigger] descs@[i], s, i)
        }),
{
    let ghost s = interface_views(interfaces@);
    let mut descs: Vec<InterfaceDesc> = Vec::new();
    let mut i: usize = 0;
    while i < interfaces.len()
        invariant
            i <= interfaces.len(),
            interfaces@.len() <= u32::MAX,
            s == interface_views(interfaces@),
            descs@.len() == i,
            forall|j: int| 0 <= j < i ==> #[trigger] requests_known(s, j),
            forall|j: int| 0 <= j < i ==> desc_is_for(#[trigger] descs@[j], s, j),
        decreases interfaces.len() - i,
    {
        let iface = &interfaces[i];
        assert(s[i as int] == interfaces@[i as int]@);
        let mut requests: Vec<MessageDesc> = Vec::new();
        let mut k: usize = 0;
        while k < iface.requests.len()
            invariant
                k <= iface.requests.len(),
                i < interfaces@.len() <= u32::MAX,
                s == interface_views(interfaces@),
                *iface == interfaces@[i as int],
                s[i as int] == iface@,
                requests@.len() == k,
                forall|j: int| 0 <= j < k ==> message_known(s, i as int, #[trigger] s[i as int].requests[j]),
                forall|j: int|
                    0 <= j < k ==> request_is_for(#[trigger] requests@[j], s, i as int, s[i as int].requests[j]),
            decreases iface.requests.len() - k,
        {
            assert(s[i as int].requests[k as int] == iface.requests@[k as int]@);
            match request_desc(interfaces, i, &iface.requests[k]) {
                Some(desc) => requests.push(desc),
                None => {
                    assert(!requests_known(s, i as int));
                    return None;
                },
            }
            k = k + 1;
        }
        assert(requests_known(s, i as int));
        descs.push(InterfaceDesc { requests });
        assert(desc_is_for(descs@[i as int], s, i as int));
        i = i + 1;
    }
    Some(descs)
}

/// How an argument that has to be something is laid out.
pub open spec fn wire_of(spec: ArgSpec) -> WireType {
    match spec {
        ArgSpec::Int => WireType::Int,
        ArgSpec::Uint => WireType::Uint,
        ArgSpec::Enum { .. } => WireType::Uint,
        ArgSpec::Fixed => WireType::Fixed,
        ArgSpec::Object { allow_null, .. } => if allow_null {
            WireType::OptObject
        } else {
            WireType::Object
        },
        ArgSpec::NewId { interface } => if interface is Some {
            WireType::NewId
        } else {
            WireType::AnyNewId
        },
        ArgSpec::String { allow_null } => if allow_null {
            WireType::OptText
        } else {
            WireType::Text
        },
        ArgSpec::Array => WireType::Array,
        ArgSpec::Fd => WireType::Fd,
    }
}

/// What an argument has to be and how the code for it lays it out agree.
pub proof fn law_signature_matches_layout(spec: ArgSpec, s: Seq<InterfaceV>, own: int, arg: ArgumentText, code: ArgCode)
    requires
        spec_is_for(spec, s, own, arg.kind@),
        code.is_for(arg),
    ensures
        wire_of(spec) == code.wire,
{
}

} // verus!
