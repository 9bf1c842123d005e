//! What the code for an interface of a protocol consists of.
use vstd::prelude::*;

use crate::protocol_reader::{numbers_readable, parsed_protocol, read_protocol, ScanError};
use crate::protocol_text::{
    interface_views, ArgumentText, DocText, EntryText, EnumText, EnumV, InterfaceText, InterfaceV, KindV, MessageText,
    MessageV,
};
use crate::scanner::{
    doc_lines, gen_doc, is_destructor, law_split_is_one, make_pascal_case_ident, pascal, pascal_ident, request_shape,
    snake_to_pascal, split_at_dot, split_once, ArgKind, CodeType, Decoding, DocLine, Encoding, RequestShape, WireType,
};

verus! {

/// Where the type of an enum is found: in the module of an interface, or next to the code that uses it.
#[derive(Debug)]
pub struct EnumPath {
    pub iface: Option<Vec<char>>,
    pub name: Vec<char>,
}

/// What the code does with an argument.
#[derive(Debug)]
pub struct ArgCode {
    pub name: Vec<char>,
    pub wire: WireType,
    pub decoding: Decoding,
    pub encoding: Encoding,
    pub ty: CodeType,
    /// The type of the object, if its interface is known.
    pub proxy: Option<Vec<char>>,
    /// The type of the value, if it is one of an enum.
    pub enum_path: Option<EnumPath>,
}

/// The code for a message.
#[derive(Debug)]
pub struct MessageCode {
    pub opcode: u16,
    /// The name of the message in the protocol.
    pub wire_name: Vec<char>,
    pub is_destructor: bool,
    pub doc: Vec<DocLine>,
    pub args: Vec<ArgCode>,
}

/// The code for a request.
#[derive(Debug)]
pub struct RequestCode {
    /// The name of the variant.
    pub name: Vec<char>,
    pub shape: RequestShape,
    /// The name of the structure that holds the arguments, if there is one.
    pub args_name: Option<Vec<char>>,
    pub message: MessageCode,
}

/// The code for a value of an enum.
#[derive(Debug)]
pub struct ItemCode {
    pub name: Vec<char>,
    pub value: u32,
    pub doc: Vec<DocLine>,
}

/// The code for an enum.
#[derive(Debug)]
pub struct EnumCode {
    pub name: Vec<char>,
    pub is_bitfield: bool,
    pub doc: Vec<DocLine>,
    pub items: Vec<ItemCode>,
}

/// The code for an interface.
#[derive(Debug)]
pub struct InterfaceCode {
    /// The name of the interface in the protocol.
    pub wire_name: Vec<char>,
    pub version: u32,
    /// The name of the type of its objects.
    pub proxy_name: Vec<char>,
    /// The name of that type in the documentation.
    pub title: Vec<char>,
    pub doc: Vec<DocLine>,
    pub requests: Vec<RequestCode>,
    pub events: Vec<MessageCode>,
    pub enums: Vec<EnumCode>,
}

impl KindV {
    /// The interface that objects of the type have, if it is known.
    pub open spec fn iface_name(self) -> Option<Seq<char>> {
        match self {
            KindV::Object { iface, .. } => iface,
            KindV::NewId { iface } => iface,
            _ => None,
        }
    }

    /// Whether the names that the type holds are not empty.
    pub open spec fn named(self) -> bool {
        &&& self.iface_name() matches Some(name) ==> name.len() > 0
        &&& self matches KindV::Enum(name) ==> {
            &&& name.len() > 0
            &&& forall|a: Seq<char>, b: Seq<char>| #[trigger] split_at_dot(name, a, b) ==> b.len() > 0
        }
    }

    /// Whether the argument makes an object of an interface that is not known.
    pub open spec fn makes_any_object(self) -> bool {
        self == KindV::NewId { iface: None }
    }
}

impl MessageV {
    /// Whether the names that the arguments hold are not empty.
    pub open spec fn args_named(self) -> bool {
        forall|i: int| 0 <= i < self.args.len() ==> (#[trigger] self.args[i]).kind.named()
    }

    /// Whether the message makes an object of an interface that is not known.
    pub open spec fn makes_any_object(self) -> bool {
        exists|i: int| 0 <= i < self.args.len() && (#[trigger] self.args[i]).kind.makes_any_object()
    }

    /// Whether code can be made for the message as a request.
    pub open spec fn is_request(self) -> bool {
        self.name.len() > 0 && self.args_named()
    }

    /// Whether code can be made for the message as an event.
    pub open spec fn is_event(self) -> bool {
        self.args_named() && !self.makes_any_object()
    }
}

impl EnumV {
    /// Whether the enum and its values have names.
    pub open spec fn named(self) -> bool {
        &&& self.name.len() > 0
        &&& forall|i: int| 0 <= i < self.items.len() ==> (#[trigger] self.items[i]).name.len() > 0
    }
}

impl InterfaceV {
    /// Whether code can be made for the interface: nothing has an empty name, and no event makes an
    /// object of an interface that is not known.
    pub open spec fn sound(self) -> bool {
        &&& self.name.len() > 0
        &&& forall|i: int| 0 <= i < self.requests.len() ==> (#[trigger] self.requests[i]).is_request()
        &&& forall|i: int| 0 <= i < self.events.len() ==> (#[trigger] self.events[i]).is_event()
        &&& forall|i: int| 0 <= i < self.enums.len() ==> (#[trigger] self.enums[i]).named()
    }
}

impl ArgKind {
    /// Whether the names that the type holds are not empty.
    fn is_named(&self) -> (r: bool)
        ensures
            r == self@.named(),
    {
        match self {
            ArgKind::Object { iface: Some(name), .. } => name.len() > 0,
            ArgKind::NewId { iface: Some(name) } => name.len() > 0,
            ArgKind::Enum(name) => match split_once(name) {
                None => {
                    assert forall|a: Seq<char>, b: Seq<char>| #[trigger] split_at_dot(name@, a, b) implies b.len()
                        > 0 by {
                        assert(name@[a.len() as int] == '.');
                    }
                    name.len() > 0
                },
                Some((iface, rest)) => {
                    assert forall|a: Seq<char>, b: Seq<char>| #[trigger] split_at_dot(name@, a, b) implies b == rest@ by {
                        law_split_is_one(name@, a, b, iface@, rest@);
                    }
                    rest.len() > 0
                },
            },
            _ => true,
        }
    }
}

impl EnumPath {
    /// Whether the path leads to the enum with a name.
    pub open spec fn leads_to(self, name: Seq<char>) -> bool {
        if name.contains('.') {
            exists|b: Seq<char>|
                self.iface is Some && #[trigger] split_at_dot(name, self.iface->0@, b) && self.name@ == pascal_ident(b)
        } else {
            self.iface is None && self.name@ == pascal_ident(name)
        }
    }
}

impl ArgCode {
    /// Whether this is the code for an argument.
    pub open spec fn is_for(self, arg: ArgumentText) -> bool {
        let kind = arg.kind;
        &&& self.name@ == arg.name@
        &&& self.wire == kind.wire()
        &&& self.decoding == kind.decoding()
        &&& self.encoding == kind.encoding()
        &&& self.ty == kind.code_type()
        &&& match kind@.iface_name() {
            Some(name) => self.proxy is Some && self.proxy->0@ == pascal_ident(name),
            None => self.proxy is None,
        }
        &&& match kind {
            ArgKind::Enum(name) => self.enum_path is Some && self.enum_path->0.leads_to(name@),
            _ => self.enum_path is None,
        }
    }
}

/// How many lines end in a text.
pub open spec fn newlines(text: Seq<char>) -> nat
    decreases text.len(),
{
    if text.len() == 0 {
        0
    } else {
        newlines(text.drop_last()) + if text.last() == '\n' {
            1nat
        } else {
            0
        }
    }
}

/// How many lines a text has. The last one need not end.
pub open spec fn line_count(text: Seq<char>) -> nat {
    newlines(text) + if text.len() > 0 && text.last() != '\n' {
        1nat
    } else {
        0
    }
}

/// The documentation of an item that came with a version, or was there from the start.
pub open spec fn item_doc(description: Option<DocText>, since: Option<u32>) -> Seq<DocLine> {
    match description {
        Some(doc) => doc_lines(
            doc.summary is Some,
            match doc.text {
                Some(text) => line_count(text@) as usize,
                None => 0,
            },
            since,
        ),
        None => doc_lines(false, 0, since),
    }
}

fn count_lines(text: &Vec<char>) -> (r: usize)
    ensures
        r == line_count(text@),
{
    let mut n: usize = 0;
    let mut i: usize = 0;
    assert(text@.take(0) =~= Seq::<char>::empty());
    while i < text.len()
        invariant
            i <= text.len(),
            n <= i,
            n == newlines(text@.take(i as int)),
            i > 0 && text@[i - 1] != '\n' ==> n < i,
        decreases text.len() - i,
    {
        assert(text@.take(i + 1).drop_last() =~= text@.take(i as int));
        if text[i] == '\n' {
            n = n + 1;
        }
        i = i + 1;
    }
    assert(text@.take(i as int) =~= text@);
    if text.len() > 0 && text[text.len() - 1] != '\n' {
        n + 1
    } else {
        n
    }
}

fn gen_item_doc(description: &Option<DocText>, since: Option<u32>) -> (r: Vec<DocLine>)
    ensures
        r@ == item_doc(*description, since),
{
    match description {
        Some(doc) => {
            let lines: usize = match &doc.text {
                Some(text) => count_lines(text),
                None => 0,
            };
            gen_doc(doc.summary.is_some(), lines, since)
        },
        None => gen_doc(false, 0, since),
    }
}

/// The number of the message in a place of its list.
pub open spec fn opcode_of(place: int) -> u16 {
    (place as usize) as u16
}

impl MessageText {
    fn has_named_args(&self) -> (r: bool)
        ensures
            r == self@.args_named(),
    {
        let mut i: usize = 0;
        while i < self.args.len()
            invariant
                i <= self.args.len(),
                forall|j: int| 0 <= j < i ==> (#[trigger] self@.args[j]).kind.named(),
            decreases self.args.len() - i,
        {
            assert(self@.args[i as int] == self.args@[i as int]@);
            if !self.args[i].kind.is_named() {
                return false;
            }
            i = i + 1;
        }
        true
    }

    fn can_make_any_object(&self) -> (r: bool)
        ensures
            r == self@.makes_any_object(),
    {
        let mut i: usize = 0;
        while i < self.args.len()
            invariant
                i <= self.args.len(),
                forall|j: int| 0 <= j < i ==> !(#[trigger] self@.args[j]).kind.makes_any_object(),
            decreases self.args.len() - i,
        {
            assert(self@.args[i as int] == self.args@[i as int]@);
            if self.args[i].kind.as_request_ty() == CodeType::AnyNewId {
                return true;
            }
            i = i + 1;
        }
        false
    }
}

impl MessageCode {
    /// Whether this is the code for the message in a place of its list.
    pub open spec fn is_for(self, message: MessageText, place: int) -> bool {
        &&& self.opcode == opcode_of(place)
        &&& self.wire_name@ == message.name@
        &&& self.is_destructor == (message.kind matches Some(k) && k@ == "destructor"@)
        &&& self.doc@ == item_doc(message.description, Some(message.since))
        &&& self.args@.len() == message.args@.len()
        &&& forall|i: int| 0 <= i < message.args@.len() ==> (#[trigger] self.args@[i]).is_for(message.args@[i])
    }
}

impl RequestCode {
    /// Whether this is the code for the request in a place of its list.
    pub open spec fn is_for(self, request: MessageText, place: int) -> bool {
        &&& self.name@ == pascal_ident(request.name@)
        &&& self.shape is Unit == (request.args@.len() == 0)
        &&& self.shape is Single == (request.args@.len() == 1)
        &&& self.shape is Struct == (request.args@.len() > 1)
        &&& if self.shape is Struct {
            self.args_name is Some && self.args_name->0@ == self.name@ + seq!['A', 'r', 'g', 's']
        } else {
            self.args_name is None
        }
        &&& self.message.is_for(request, place)
    }
}

impl EnumCode {
    /// Whether this is the code for an enum.
    pub open spec fn is_for(self, en: EnumText) -> bool {
        &&& self.name@ == pascal_ident(en.name@)
        &&& self.is_bitfield == en.is_bitfield
        &&& self.doc@ == item_doc(en.description, None)
        &&& self.items@.len() == en.items@.len()
        &&& forall|i: int| 0 <= i < en.items@.len() ==> (#[trigger] self.items@[i]).is_for(en.items@[i])
    }
}

impl ItemCode {
    /// Whether this is the code for a value of an enum.
    pub open spec fn is_for(self, item: EntryText) -> bool {
        &&& self.name@ == pascal_ident(item.name@)
        &&& self.value == item.value
        &&& self.doc@ == item_doc(item.description, Some(item.since))
    }
}

impl EnumText {
    fn is_named(&self) -> (r: bool)
        ensures
            r == self@.named(),
    {
        let mut i: usize = 0;
        while i < self.items.len()
            invariant
                i <= self.items.len(),
                forall|j: int| 0 <= j < i ==> (#[trigger] self@.items[j]).name.len() > 0,
            decreases self.items.len() - i,
        {
            assert(self@.items[i as int] == self.items@[i as int]@);
            if self.items[i].name.len() == 0 {
                return false;
            }
            i = i + 1;
        }
        self.name.len() > 0
    }
}

impl InterfaceCode {
    /// Whether this is the code for an interface.
    pub open spec fn is_for(self, iface: InterfaceText) -> bool {
        &&& self.wire_name@ == iface.name@
        &&& self.version == iface.version
        &&& self.proxy_name@ == pascal_ident(iface.name@)
        &&& self.title@ == pascal(iface.name@)
        &&& self.doc@ == item_doc(iface.description, None)
        &&& self.requests@.len() == iface.requests@.len()
        &&& forall|i: int| 0 <= i < iface.requests@.len() ==> (#[trigger] self.requests@[i]).is_for(iface.requests@[i], i)
        &&& self.events@.len() == iface.events@.len()
        &&& forall|i: int| 0 <= i < iface.events@.len() ==> (#[trigger] self.events@[i]).is_for(iface.events@[i], i)
        &&& self.enums@.len() == iface.enums@.len()
        &&& forall|i: int| 0 <= i < iface.enums@.len() ==> (#[trigger] self.enums@[i]).is_for(iface.enums@[i])
    }
}

impl InterfaceText {
    /// Whether code can be made for the interface.
    pub fn is_sound(&self) -> (r: bool)
        ensures
            r == self@.sound(),
    {
        let mut i: usize = 0;
        while i < self.requests.len()
            invariant
                i <= self.requests.len(),
                forall|j: int| 0 <= j < i ==> (#[trigger] self@.requests[j]).is_request(),
            decreases self.requests.len() - i,
        {
            let request = &self.requests[i];
            assert(self@.requests[i as int] == self.requests@[i as int]@);
            if request.name.len() == 0 || !request.has_named_args() {
                return false;
            }
            i = i + 1;
        }
        i = 0;
        while i < self.events.len()
            invariant
                i <= self.events.len(),
                forall|j: int| 0 <= j < i ==> (#[trigger] self@.events[j]).is_event(),
            decreases self.events.len() - i,
        {
            let event = &self.events[i];
            assert(self@.events[i as int] == self.events@[i as int]@);
            if !event.has_named_args() || event.can_make_any_object() {
                return false;
            }
            i = i + 1;
        }
        i = 0;
        while i < self.enums.len()
            invariant
                i <= self.enums.len(),
                forall|j: int| 0 <= j < i ==> (#[trigger] self@.enums[j]).named(),
            decreases self.enums.len() - i,
        {
            assert(self@.enums[i as int] == self.enums@[i as int]@);
            if !self.enums[i].is_named() {
                return false;
            }
            i = i + 1;
        }
        self.name.len() > 0
    }
}

fn copied(name: &Vec<char>) -> (r: Vec<char>)
    ensures
        r@ == name@,
{
    let mut r: Vec<char> = Vec::new();
    let mut i: usize = 0;
    while i < name.len()
        invariant
            i <= name.len(),
            r@ == name@.take(i as int),
        decreases name.len() - i,
    {
        r.push(name[i]);
        assert(r@ =~= name@.take(i + 1));
        i = i + 1;
    }
    assert(r@ =~= name@);
    r
}

/// Where the enum with a name is found.
fn gen_enum_path(name: &Vec<char>) -> (r: EnumPath)
    requires
        KindV::Enum(name@).named(),
    ensures
        r.leads_to(name@),
{
    match split_once(name) {
        Some((iface, rest)) => {
            let r = EnumPath { iface: Some(iface), name: make_pascal_case_ident(&rest) };
            assert(split_at_dot(name@, r.iface->0@, rest@));
            r
        },
        None => EnumPath { iface: None, name: make_pascal_case_ident(name) },
    }
}

/// The code for an argument.
pub fn gen_arg(arg: &ArgumentText) -> (r: ArgCode)
    requires
        arg.kind@.named(),
    ensures
        r.is_for(*arg),
{
    let kind = &arg.kind;
    let proxy = match kind {
        ArgKind::Object { iface: Some(name), .. } => Some(make_pascal_case_ident(name)),
        ArgKind::NewId { iface: Some(name) } => Some(make_pascal_case_ident(name)),
        _ => None,
    };
    let enum_path = match kind {
        ArgKind::Enum(name) => Some(gen_enum_path(name)),
        _ => None,
    };
    ArgCode {
        name: copied(&arg.name),
        wire: kind.map_arg_to_argtype(),
        decoding: kind.arg_decode(),
        encoding: kind.msg_arg(),
        ty: kind.as_request_ty(),
        proxy,
        enum_path,
    }
}

fn gen_message(opcode: usize, message: &MessageText) -> (r: MessageCode)
    requires
        message@.args_named(),
    ensures
        r.is_for(*message, opcode as int),
{
    let mut args: Vec<ArgCode> = Vec::new();
    let mut i: usize = 0;
    while i < message.args.len()
        invariant
            i <= message.args.len(),
            message@.args_named(),
            args@.len() == i,
            forall|j: int| 0 <= j < i ==> (#[trigger] args@[j]).is_for(message.args@[j]),
        decreases message.args.len() - i,
    {
        assert(message@.args[i as int] == message.args@[i as int]@);
        args.push(gen_arg(&message.args[i]));
        i = i + 1;
    }
    MessageCode {
        opcode: #[verifier::truncate] (opcode as u16),
        wire_name: copied(&message.name),
        is_destructor: is_destructor(&message.kind),
        doc: gen_item_doc(&message.description, Some(message.since)),
        args,
    }
}

/// The code for the function that sends an event.
pub fn gen_event_fn(opcode: usize, event: &MessageText) -> (r: MessageCode)
    requires
        event@.is_event(),
    ensures
        r.is_for(*event, opcode as int),
{
    gen_message(opcode, event)
}

/// The code for a request.
pub fn gen_request(opcode: usize, request: &MessageText) -> (r: RequestCode)
    requires
        request@.is_request(),
    ensures
        r.is_for(*request, opcode as int),
{
    let name = make_pascal_case_ident(&request.name);
    let shape = request_shape(request.args.len());
    let args_name = match shape {
        RequestShape::Struct => {
            let mut args_name = make_pascal_case_ident(&request.name);
            args_name.push('A');
            args_name.push('r');
            args_name.push('g');
            args_name.push('s');
            assert(args_name@ =~= name@ + seq!['A', 'r', 'g', 's']);
            Some(args_name)
        },
        _ => None,
    };
    RequestCode { name, shape, args_name, message: gen_message(opcode, request) }
}

/// The code for an enum.
pub fn gen_enum(en: &EnumText) -> (r: EnumCode)
    requires
        en@.named(),
    ensures
        r.is_for(*en),
{
    let mut items: Vec<ItemCode> = Vec::new();
    let mut i: usize = 0;
    while i < en.items.len()
        invariant
            i <= en.items.len(),
            en@.named(),
            items@.len() == i,
            forall|j: int| 0 <= j < i ==> (#[trigger] items@[j]).is_for(en.items@[j]),
        decreases en.items.len() - i,
    {
        let item = &en.items[i];
        assert(en@.items[i as int] == en.items@[i as int]@);
        items.push(
            ItemCode {
                name: make_pascal_case_ident(&item.name),
                value: item.value,
                doc: gen_item_doc(&item.description, Some(item.since)),
            },
        );
        i = i + 1;
    }
    EnumCode {
        name: make_pascal_case_ident(&en.name),
        is_bitfield: en.is_bitfield,
        doc: gen_item_doc(&en.description, None),
        items,
    }
}

/// The code for an interface.
pub fn gen_interface(iface: &InterfaceText) -> (r: InterfaceCode)
    requires
        iface@.sound(),
    ensures
        r.is_for(*iface),
{
    let mut requests: Vec<RequestCode> = Vec::new();
    let mut i: usize = 0;
    while i < iface.requests.len()
        invariant
            i <= iface.requests.len(),
            iface@.sound(),
            requests@.len() == i,
            forall|j: int| 0 <= j < i ==> (#[trigger] requests@[j]).is_for(iface.requests@[j], j),
        decreases iface.requests.len() - i,
    {
        assert(iface@.requests[i as int] == iface.requests@[i as int]@);
        requests.push(gen_request(i, &iface.requests[i]));
        i = i + 1;
    }
    let mut events: Vec<MessageCode> = Vec::new();
    i = 0;
    while i < iface.events.len()
        invariant
            i <= iface.events.len(),
            iface@.sound(),
            events@.len() == i,
            forall|j: int| 0 <= j < i ==> (#[trigger] events@[j]).is_for(iface.events@[j], j),
        decreases iface.events.len() - i,
    {
        assert(iface@.events[i as int] == iface.events@[i as int]@);
        events.push(gen_event_fn(i, &iface.events[i]));
        i = i + 1;
    }
    let mut enums: Vec<EnumCode> = Vec::new();
    i = 0;
    while i < iface.enums.len()
        invariant
            i <= iface.enums.len(),
            iface@.sound(),
            enums@.len() == i,
            forall|j: int| 0 <= j < i ==> (#[trigger] enums@[j]).is_for(iface.enums@[j]),
        decreases iface.enums.len() - i,
    {
        assert(iface@.enums[i as int] == iface.enums@[i as int]@);
        enums.push(gen_enum(&iface.enums[i]));
        i = i + 1;
    }
    InterfaceCode {
        wire_name: copied(&iface.name),
        version: iface.version,
        proxy_name: make_pascal_case_ident(&iface.name),
        title: snake_to_pascal(&iface.name),
        doc: gen_item_doc(&iface.description, None),
        requests,
        events,
        enums,
    }
}

/// The code for interfaces, unless code cannot be made for one of them.
pub fn gen_interfaces(interfaces: &Vec<InterfaceText>) -> (r: Option<Vec<InterfaceCode>>)
    ensures
        r is Some == all_sound(interface_views(interfaces@)),
        r matches Some(codes) ==> codes_are_for(codes@, interfaces@),
{
    let mut codes: Vec<InterfaceCode> = Vec::new();
    let mut i: usize = 0;
    while i < interfaces.len()
        invariant
            i <= interfaces.len(),
            codes@.len() == i,
            forall|j: int| 0 <= j < i ==> (#[trigger] interface_views(interfaces@)[j]).sound(),
            forall|j: int| 0 <= j < i ==> (#[trigger] codes@[j]).is_for(interfaces@[j]),
        decreases interfaces.len() - i,
    {
        assert(interface_views(interfaces@)[i as int] == interfaces@[i as int]@);
        if !interfaces[i].is_sound() {
            return None;
        }
        codes.push(gen_interface(&interfaces[i]));
        i = i + 1;
    }
    Some(codes)
}

/// Whether code can be made for each of some interfaces.
pub open spec fn all_sound(interfaces: Seq<InterfaceV>) -> bool {
    forall|i: int| 0 <= i < interfaces.len() ==> (#[trigger] interfaces[i]).sound()
}

/// Whether codes are those for interfaces, in order.
pub open spec fn codes_are_for(codes: Seq<InterfaceCode>, interfaces: Seq<InterfaceText>) -> bool {
    &&& codes.len() == interfaces.len()
    &&& forall|i: int| 0 <= i < interfaces.len() ==> (#[trigger] codes[i]).is_for(interfaces[i])
}

/// The interfaces of a protocol, and the code for each of them.
#[derive(Debug)]
pub struct Generated {
    pub interfaces: Vec<InterfaceText>,
    pub codes: Vec<InterfaceCode>,
}

/// Makes code of the text of a protocol.
pub fn generate(text: &str) -> (r: Result<Generated, ScanError>)
    ensures
        match r {
            Ok(g) => {
                &&& numbers_readable(text@)
                &&& parsed_protocol(text@) == Ok::<Seq<InterfaceV>, Seq<char>>(interface_views(g.interfaces@))
                &&& all_sound(interface_views(g.interfaces@))
                &&& codes_are_for(g.codes@, g.interfaces@)
            },
            Err(ScanError::Unreadable) => !numbers_readable(text@),
            Err(ScanError::Parse(e)) => numbers_readable(text@) && parsed_protocol(text@) == Err::<
                Seq<InterfaceV>,
                Seq<char>,
            >(e@),
            Err(ScanError::Unsound) => numbers_readable(text@) && parsed_protocol(text@) is Ok && !all_sound(
                parsed_protocol(text@)->Ok_0,
            ),
        },
{
    let interfaces = match read_protocol(text) {
        Ok(interfaces) => interfaces,
        Err(e) => return Err(e),
    };
    match gen_interfaces(&interfaces) {
        Some(codes) => Ok(Generated { interfaces, codes }),
        None => Err(ScanError::Unsound),
    }
}

/// No two requests of an interface have the same number, and no two events do, unless there are more
/// of them than numbers.
pub proof fn law_opcodes_are_apart(iface: InterfaceText, code: InterfaceCode, i: int, j: int)
    requires
        code.is_for(iface),
        0 <= i < j < 0x1_0000,
    ensures
        j < iface.requests@.len() ==> {
            &&& code.requests@[i].message.opcode == i
            &&& code.requests@[i].message.opcode != code.requests@[j].message.opcode
        },
        j < iface.events@.len() ==> {
            &&& code.events@[i].opcode == i
            &&& code.events@[i].opcode != code.events@[j].opcode
        },
{
    if j < iface.requests@.len() {
        assert(code.requests@[i].is_for(iface.requests@[i], i));
        assert(code.requests@[j].is_for(iface.requests@[j], j));
    }
    if j < iface.events@.len() {
        assert(code.events@[i].is_for(iface.events@[i], i));
        assert(code.events@[j].is_for(iface.events@[j], j));
    }
}

} // verus!
