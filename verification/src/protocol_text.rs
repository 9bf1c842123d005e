//! Protocols, as the texts that define them describe them.
use vstd::prelude::*;

use std::borrow::Cow;

use crate::scanner::ArgKind;

verus! {

/// `wayrs_proto_parser::Description`, with its public fields: the summary and the text of an item.
#[verifier::external_type_specification]
pub struct ExDescription<'a>(wayrs_proto_parser::Description<'a>);

/// `wayrs_proto_parser::ArgType`, with its variants: the type of an argument.
#[verifier::external_type_specification]
pub struct ExArgType(wayrs_proto_parser::ArgType);

/// `wayrs_proto_parser::Argument`, with its public fields: an argument of a message.
#[verifier::external_type_specification]
pub struct ExArgument(wayrs_proto_parser::Argument);

/// `wayrs_proto_parser::Message`, with its public fields: a request or an event.
#[verifier::external_type_specification]
pub struct ExMessage<'a>(wayrs_proto_parser::Message<'a>);

/// `wayrs_proto_parser::EnumItem`, with its public fields: a value of an enum.
#[verifier::external_type_specification]
pub struct ExEnumItem(wayrs_proto_parser::EnumItem);

/// `wayrs_proto_parser::Enum`, with its public fields: an enum.
#[verifier::external_type_specification]
pub struct ExEnum<'a>(wayrs_proto_parser::Enum<'a>);

/// `wayrs_proto_parser::Interface`, with its public fields: an interface.
#[verifier::external_type_specification]
pub struct ExInterface<'a>(wayrs_proto_parser::Interface<'a>);

/// `wayrs_proto_parser::Protocol`, with its public fields: what a text defines.
#[verifier::external_type_specification]
pub struct ExProtocol<'a>(wayrs_proto_parser::Protocol<'a>);

/// What is said of an item.
#[derive(Debug)]
pub struct DocText {
    pub summary: Option<Vec<char>>,
    pub text: Option<Vec<char>>,
}

/// An argument of a message.
#[derive(Debug)]
pub struct ArgumentText {
    pub name: Vec<char>,
    pub kind: ArgKind,
    pub summary: Option<Vec<char>>,
}

/// A request or an event.
#[derive(Debug)]
pub struct MessageText {
    pub name: Vec<char>,
    pub kind: Option<String>,
    /// The version of the interface that the message came with.
    pub since: u32,
    pub description: Option<DocText>,
    pub args: Vec<ArgumentText>,
}

/// A value of an enum.
#[derive(Debug)]
pub struct EntryText {
    pub name: Vec<char>,
    pub value: u32,
    /// The version of the interface that the value came with.
    pub since: u32,
    pub description: Option<DocText>,
}

/// An enum.
#[derive(Debug)]
pub struct EnumText {
    pub name: Vec<char>,
    pub is_bitfield: bool,
    pub description: Option<DocText>,
    pub items: Vec<EntryText>,
}

/// An interface.
#[derive(Debug)]
pub struct InterfaceText {
    pub name: Vec<char>,
    pub version: u32,
    pub description: Option<DocText>,
    pub requests: Vec<MessageText>,
    pub events: Vec<MessageText>,
    pub enums: Vec<EnumText>,
}

/// What a [`DocText`] says.
#[verifier::ext_equal]
pub struct DocV {
    pub summary: Option<Seq<char>>,
    pub text: Option<Seq<char>>,
}

/// What an [`ArgKind`] says.
#[verifier::ext_equal]
pub enum KindV {
    Int,
    Uint,
    Enum(Seq<char>),
    Fixed,
    Object { allow_null: bool, iface: Option<Seq<char>> },
    NewId { iface: Option<Seq<char>> },
    Text { allow_null: bool },
    Array,
    Fd,
}

/// What an [`ArgumentText`] says.
#[verifier::ext_equal]
pub struct ArgumentV {
    pub name: Seq<char>,
    pub kind: KindV,
    pub summary: Option<Seq<char>>,
}

/// What a [`MessageText`] says.
#[verifier::ext_equal]
pub struct MessageV {
    pub name: Seq<char>,
    pub kind: Option<Seq<char>>,
    pub since: u32,
    pub description: Option<DocV>,
    pub args: Seq<ArgumentV>,
}

/// What an [`EntryText`] says.
#[verifier::ext_equal]
pub struct EntryV {
    pub name: Seq<char>,
    pub value: u32,
    pub since: u32,
    pub description: Option<DocV>,
}

/// What an [`EnumText`] says.
#[verifier::ext_equal]
pub struct EnumV {
    pub name: Seq<char>,
    pub is_bitfield: bool,
    pub description: Option<DocV>,
    pub items: Seq<EntryV>,
}

/// What an [`InterfaceText`] says.
#[verifier::ext_equal]
pub struct InterfaceV {
    pub name: Seq<char>,
    pub version: u32,
    pub description: Option<DocV>,
    pub requests: Seq<MessageV>,
    pub events: Seq<MessageV>,
    pub enums: Seq<EnumV>,
}

/// The characters of a text, if there is one.
pub open spec fn maybe_chars(text: Option<Vec<char>>) -> Option<Seq<char>> {
    match text {
        Some(text) => Some(text@),
        None => None,
    }
}

/// The characters of a string, if there is one.
pub open spec fn maybe_string(text: Option<String>) -> Option<Seq<char>> {
    match text {
        Some(text) => Some(text@),
        None => None,
    }
}

impl View for DocText {
    type V = DocV;

    open spec fn view(&self) -> DocV {
        DocV { summary: maybe_chars(self.summary), text: maybe_chars(self.text) }
    }
}

/// What a description says, if there is one.
pub open spec fn maybe_doc(doc: Option<DocText>) -> Option<DocV> {
    match doc {
        Some(doc) => Some(doc@),
        None => None,
    }
}

impl View for ArgKind {
    type V = KindV;

    open spec fn view(&self) -> KindV {
        match *self {
            ArgKind::Int => KindV::Int,
            ArgKind::Uint => KindV::Uint,
            ArgKind::Enum(name) => KindV::Enum(name@),
            ArgKind::Fixed => KindV::Fixed,
            ArgKind::Object { allow_null, iface } => KindV::Object { allow_null, iface: maybe_chars(iface) },
            ArgKind::NewId { iface } => KindV::NewId { iface: maybe_chars(iface) },
            ArgKind::Text { allow_null } => KindV::Text { allow_null },
            ArgKind::Array => KindV::Array,
            ArgKind::Fd => KindV::Fd,
        }
    }
}

impl View for ArgumentText {
    type V = ArgumentV;

    open spec fn view(&self) -> ArgumentV {
        ArgumentV { name: self.name@, kind: self.kind@, summary: maybe_chars(self.summary) }
    }
}

impl View for MessageText {
    type V = MessageV;

    open spec fn view(&self) -> MessageV {
        MessageV {
            name: self.name@,
            kind: maybe_string(self.kind),
            since: self.since,
            description: maybe_doc(self.description),
            args: Seq::new(self.args@.len(), |i: int| self.args@[i]@),
        }
    }
}

impl View for EntryText {
    type V = EntryV;

    open spec fn view(&self) -> EntryV {
        EntryV {
            name: self.name@,
            value: self.value,
            since: self.since,
            description: maybe_doc(self.description),
        }
    }
}

impl View for EnumText {
    type V = EnumV;

    open spec fn view(&self) -> EnumV {
        EnumV {
            name: self.name@,
            is_bitfield: self.is_bitfield,
            description: maybe_doc(self.description),
            items: Seq::new(self.items@.len(), |i: int| self.items@[i]@),
        }
    }
}

impl View for InterfaceText {
    type V = InterfaceV;

    open spec fn view(&self) -> InterfaceV {
        InterfaceV {
            name: self.name@,
            version: self.version,
            description: maybe_doc(self.description),
            requests: Seq::new(self.requests@.len(), |i: int| self.requests@[i]@),
            events: Seq::new(self.events@.len(), |i: int| self.events@[i]@),
            enums: Seq::new(self.enums@.len(), |i: int| self.enums@[i]@),
        }
    }
}

/// What interfaces say.
pub open spec fn interface_views(interfaces: Seq<InterfaceText>) -> Seq<InterfaceV> {
    Seq::new(interfaces.len(), |i: int| interfaces[i]@)
}

/// What a description of the parser says, if there is one.
pub open spec fn doc_view(doc: Option<wayrs_proto_parser::Description<'_>>) -> Option<DocV> {
    match doc {
        Some(doc) => Some(
            DocV {
                summary: maybe_string(doc.summary),
                text: match doc.text {
                    Some(text) => Some(text@),
                    None => None,
                },
            },
        ),
        None => None,
    }
}

/// What the type of an argument of the parser says.
pub open spec fn kind_view(kind: wayrs_proto_parser::ArgType) -> KindV {
    match kind {
        wayrs_proto_parser::ArgType::Int => KindV::Int,
        wayrs_proto_parser::ArgType::Uint => KindV::Uint,
        wayrs_proto_parser::ArgType::Enum(name) => KindV::Enum(name@),
        wayrs_proto_parser::ArgType::Fixed => KindV::Fixed,
        wayrs_proto_parser::ArgType::String { allow_null } => KindV::Text { allow_null },
        wayrs_proto_parser::ArgType::Object { allow_null, iface } => KindV::Object {
            allow_null,
            iface: maybe_string(iface),
        },
        wayrs_proto_parser::ArgType::NewId { iface } => KindV::NewId { iface: maybe_string(iface) },
        wayrs_proto_parser::ArgType::Array => KindV::Array,
        wayrs_proto_parser::ArgType::Fd => KindV::Fd,
    }
}

/// What an argument of the parser says.
pub open spec fn argument_view(arg: wayrs_proto_parser::Argument) -> ArgumentV {
    ArgumentV { name: arg.name@, kind: kind_view(arg.arg_type), summary: maybe_string(arg.summary) }
}

/// What a message of the parser says.
pub open spec fn message_view(message: wayrs_proto_parser::Message<'_>) -> MessageV {
    MessageV {
        name: message.name@,
        kind: maybe_string(message.kind),
        since: message.since,
        description: doc_view(message.description),
        args: Seq::new(message.args@.len(), |i: int| argument_view(message.args@[i])),
    }
}

/// What a value of an enum of the parser says.
pub open spec fn entry_view(item: wayrs_proto_parser::EnumItem) -> EntryV {
    EntryV { name: item.name@, value: item.value, since: item.since, description: doc_view(item.description) }
}

/// What an enum of the parser says.
pub open spec fn enum_view(en: wayrs_proto_parser::Enum<'_>) -> EnumV {
    EnumV {
        name: en.name@,
        is_bitfield: en.is_bitfield,
        description: doc_view(en.description),
        items: Seq::new(en.items@.len(), |i: int| entry_view(en.items@[i])),
    }
}

/// What an interface of the parser says.
pub open spec fn interface_view(iface: wayrs_proto_parser::Interface<'_>) -> InterfaceV {
    InterfaceV {
        name: iface.name@,
        version: iface.version,
        description: doc_view(iface.description),
        requests: Seq::new(iface.requests@.len(), |i: int| message_view(iface.requests@[i])),
        events: Seq::new(iface.events@.len(), |i: int| message_view(iface.events@[i])),
        enums: Seq::new(iface.enums@.len(), |i: int| enum_view(iface.enums@[i])),
    }
}

/// What the interfaces of a protocol of the parser say.
pub open spec fn protocol_view(protocol: wayrs_proto_parser::Protocol<'_>) -> Seq<InterfaceV> {
    Seq::new(protocol.interfaces@.len(), |i: int| interface_view(protocol.interfaces@[i]))
}

/// The characters of a text.
pub fn chars_of(text: &str) -> (r: Vec<char>)
    ensures
        r@ == text@,
{
    let mut r: Vec<char> = Vec::new();
    for c in it: text.chars()
        invariant
            r@ == it.seq().take(it.index()),
    {
        r.push(c);
        assert(r@ =~= it.seq().take(it.index() + 1));
    }
    r
}

fn text_of(cow: &Cow<'_, str>) -> (r: Vec<char>)
    ensures
        r@ == cow@,
{
    match cow {
        Cow::Borrowed(s) => chars_of(s),
        Cow::Owned(s) => chars_of(s.as_str()),
    }
}

fn maybe_chars_of(text: &Option<String>) -> (r: Option<Vec<char>>)
    ensures
        maybe_chars(r) == maybe_string(*text),
{
    match text {
        Some(text) => Some(chars_of(text.as_str())),
        None => None,
    }
}

fn doc_of(doc: &Option<wayrs_proto_parser::Description<'_>>) -> (r: Option<DocText>)
    ensures
        maybe_doc(r) == doc_view(*doc),
{
    match doc {
        Some(doc) => {
            let text = match &doc.text {
                Some(text) => Some(text_of(text)),
                None => None,
            };
            Some(DocText { summary: maybe_chars_of(&doc.summary), text })
        },
        None => None,
    }
}

fn kind_of(kind: &wayrs_proto_parser::ArgType) -> (r: ArgKind)
    ensures
        r@ == kind_view(*kind),
{
    match kind {
        wayrs_proto_parser::ArgType::Int => ArgKind::Int,
        wayrs_proto_parser::ArgType::Uint => ArgKind::Uint,
        wayrs_proto_parser::ArgType::Enum(name) => ArgKind::Enum(chars_of(name.as_str())),
        wayrs_proto_parser::ArgType::Fixed => ArgKind::Fixed,
        wayrs_proto_parser::ArgType::String { allow_null } => ArgKind::Text { allow_null: *allow_null },
        wayrs_proto_parser::ArgType::Object { allow_null, iface } => ArgKind::Object {
            allow_null: *allow_null,
            iface: maybe_chars_of(iface),
        },
        wayrs_proto_parser::ArgType::NewId { iface } => ArgKind::NewId { iface: maybe_chars_of(iface) },
        wayrs_proto_parser::ArgType::Array => ArgKind::Array,
        wayrs_proto_parser::ArgType::Fd => ArgKind::Fd,
    }
}

fn message_of(message: &wayrs_proto_parser::Message<'_>) -> (r: MessageText)
    ensures
        r@ == message_view(*message),
{
    let mut args: Vec<ArgumentText> = Vec::new();
    let mut i: usize = 0;
    while i < message.args.len()
        invariant
            i <= message.args.len(),
            args@.len() == i,
            forall|j: int| 0 <= j < i ==> (#[trigger] args@[j])@ == argument_view(message.args@[j]),
        decreases message.args.len() - i,
    {
        let arg = &message.args[i];
        args.push(
            ArgumentText {
                name: chars_of(arg.name.as_str()),
                kind: kind_of(&arg.arg_type),
                summary: maybe_chars_of(&arg.summary),
            },
        );
        i = i + 1;
    }
    let r = MessageText {
        name: chars_of(message.name.as_str()),
        kind: message.kind.clone(),
        since: message.since,
        description: doc_of(&message.description),
        args,
    };
    assert(r@.args =~= message_view(*message).args);
    r
}

fn enum_of(en: &wayrs_proto_parser::Enum<'_>) -> (r: EnumText)
    ensures
        r@ == enum_view(*en),
{
    let mut items: Vec<EntryText> = Vec::new();
    let mut i: usize = 0;
    while i < en.items.len()
        invariant
            i <= en.items.len(),
            items@.len() == i,
            forall|j: int| 0 <= j < i ==> (#[trigger] items@[j])@ == entry_view(en.items@[j]),
        decreases en.items.len() - i,
    {
        let item = &en.items[i];
        items.push(
            EntryText {
                name: chars_of(item.name.as_str()),
                value: item.value,
                since: item.since,
                description: doc_of(&item.description),
            },
        );
        i = i + 1;
    }
    let r = EnumText {
        name: chars_of(en.name.as_str()),
        is_bitfield: en.is_bitfield,
        description: doc_of(&en.description),
        items,
    };
    assert(r@.items =~= enum_view(*en).items);
    r
}

fn messages_of(messages: &Vec<wayrs_proto_parser::Message<'_>>) -> (r: Vec<MessageText>)
    ensures
        r@.len() == messages@.len(),
        forall|j: int| 0 <= j < r@.len() ==> (#[trigger] r@[j])@ == message_view(messages@[j]),
{
    let mut r: Vec<MessageText> = Vec::new();
    let mut i: usize = 0;
    while i < messages.len()
        invariant
            i <= messages.len(),
            r@.len() == i,
            forall|j: int| 0 <= j < i ==> (#[trigger] r@[j])@ == message_view(messages@[j]),
        decreases messages.len() - i,
    {
        r.push(message_of(&messages[i]));
        i = i + 1;
    }
    r
}

fn interface_of(iface: &wayrs_proto_parser::Interface<'_>) -> (r: InterfaceText)
    ensures
        r@ == interface_view(*iface),
{
    let mut enums: Vec<EnumText> = Vec::new();
    let mut i: usize = 0;
    while i < iface.enums.len()
        invariant
            i <= iface.enums.len(),
            enums@.len() == i,
            forall|j: int| 0 <= j < i ==> (#[trigger] enums@[j])@ == enum_view(iface.enums@[j]),
        decreases iface.enums.len() - i,
    {
        enums.push(enum_of(&iface.enums[i]));
        i = i + 1;
    }
    let r = InterfaceText {
        name: chars_of(iface.name.as_str()),
        version: iface.version,
        description: doc_of(&iface.description),
        requests: messages_of(&iface.requests),
        events: messages_of(&iface.events),
        enums,
    };
    assert(r@ =~= interface_view(*iface));
    r
}

/// The interfaces of a protocol of the parser.
pub(crate) fn interfaces_of(protocol: &wayrs_proto_parser::Protocol<'_>) -> (r: Vec<InterfaceText>)
    ensures
        interface_views(r@) == protocol_view(*protocol),
{
    let mut r: Vec<InterfaceText> = Vec::new();
    let mut i: usize = 0;
    while i < protocol.interfaces.len()
        invariant
            i <= protocol.interfaces.len(),
            r@.len() == i,
            forall|j: int| 0 <= j < i ==> (#[trigger] r@[j])@ == interface_view(protocol.interfaces@[j]),
        decreases protocol.interfaces.len() - i,
    {
        r.push(interface_of(&protocol.interfaces[i]));
        i = i + 1;
    }
    assert(interface_views(r@) =~= protocol_view(*protocol));
    r
}

} // verus!
