//! Reading the text of a protocol.
use vstd::prelude::*;

use crate::protocol_markup::{attribute_views, markup_at, read_markup, Attribute, AttributeV, Markup, MarkupV};
use crate::protocol_text::{chars_of, interface_views, interfaces_of, protocol_view, InterfaceText, InterfaceV};
use crate::protocol_values::{is_number, is_word, meaning, number, prefixed_number, read_value};

verus! {

/// Why no code can be made of a text.
#[derive(Debug)]
pub enum ScanError {
    /// It holds a number or a reference that cannot be read.
    Unreadable,
    /// It is not the text of a protocol, for a reason.
    Parse(String),
    /// An item has no name, or an event makes an object of an interface that is not known.
    Unsound,
}

/// What surrounds a place of a text.
#[derive(Debug, Clone, Copy, PartialEq, Eq, Structural)]
pub enum Level {
    Start,
    Protocol,
    Interface,
    Request,
    Event,
    Enumeration,
    /// The protocol is over, or the text turned out to be none.
    Over,
}

/// The element whose contents are passed over.
#[derive(Debug, Clone, Copy, PartialEq, Eq, Structural)]
pub enum Skipped {
    Nothing,
    Description,
    Entry,
}

/// How far a text was read.
#[derive(Debug, Clone, Copy, PartialEq, Eq, Structural)]
pub struct Reading {
    pub level: Level,
    pub skipped: Skipped,
}

/// What an opening tag stands for.
#[derive(Debug, Clone, Copy, PartialEq, Eq, Structural)]
pub enum Element {
    Protocol,
    Interface,
    Request,
    Event,
    Enumeration,
    Entry,
    Description,
    /// It is passed over.
    Ignored,
    /// It must not stand where it does.
    Unexpected,
}

/// What a tag that opens an element, or an element without contents, stands for.
pub open spec fn element_at(level: Level, name: Seq<char>, closed: bool) -> Element {
    match level {
        Level::Start => if closed {
            Element::Ignored
        } else if name == "protocol"@ {
            Element::Protocol
        } else {
            Element::Unexpected
        },
        Level::Protocol => if closed || name == "copyright"@ {
            Element::Ignored
        } else if name == "description"@ {
            Element::Description
        } else if name == "interface"@ {
            Element::Interface
        } else {
            Element::Unexpected
        },
        Level::Interface => if closed {
            Element::Ignored
        } else if name == "description"@ {
            Element::Description
        } else if name == "request"@ {
            Element::Request
        } else if name == "event"@ {
            Element::Event
        } else if name == "enum"@ {
            Element::Enumeration
        } else {
            Element::Unexpected
        },
        Level::Request | Level::Event => if name == "description"@ {
            Element::Description
        } else if closed && name == "arg"@ {
            Element::Ignored
        } else {
            Element::Unexpected
        },
        Level::Enumeration => if name == "description"@ {
            Element::Description
        } else if name == "entry"@ {
            Element::Entry
        } else {
            Element::Unexpected
        },
        Level::Over => Element::Ignored,
    }
}

impl Reading {
    /// The level after a tag that closes an element.
    pub open spec fn level_left(self, name: Seq<char>) -> Level {
        match self.level {
            Level::Protocol if name == "protocol"@ => Level::Over,
            Level::Interface if name == "interface"@ => Level::Protocol,
            Level::Request if name == "request"@ => Level::Interface,
            Level::Event if name == "event"@ => Level::Interface,
            Level::Enumeration if name == "enum"@ => Level::Interface,
            level => level,
        }
    }

    /// Where the reading is after an element was opened.
    pub open spec fn opened(self, element: Element, closed: bool) -> Reading {
        match element {
            Element::Protocol => Reading { level: Level::Protocol, ..self },
            Element::Interface => Reading { level: Level::Interface, ..self },
            Element::Request => Reading { level: Level::Request, ..self },
            Element::Event => Reading { level: Level::Event, ..self },
            Element::Enumeration => Reading { level: Level::Enumeration, ..self },
            Element::Entry if !closed => Reading { skipped: Skipped::Entry, ..self },
            Element::Description if !closed => Reading { skipped: Skipped::Description, ..self },
            Element::Unexpected => Reading { level: Level::Over, ..self },
            _ => self,
        }
    }

    /// Where the reading is after a piece of markup.
    pub open spec fn after(self, markup: MarkupV) -> Reading {
        match (self.skipped, markup) {
            (Skipped::Nothing, MarkupV::Opening { name, closed, .. }) => self.opened(
                element_at(self.level, name, closed),
                closed,
            ),
            (Skipped::Nothing, MarkupV::Closing { name }) => Reading { level: self.level_left(name), ..self },
            (Skipped::Description, MarkupV::Closing { name }) if name == "description"@ => Reading {
                skipped: Skipped::Nothing,
                ..self
            },
            (Skipped::Entry, MarkupV::Closing { name }) if name == "entry"@ => Reading {
                skipped: Skipped::Nothing,
                ..self
            },
            _ => self,
        }
    }
}

/// Whether a value that means something means a number: a decimal one or, where `hex` is set, one that
/// may be hexadecimal.
pub open spec fn number_readable(value: Seq<char>, hex: bool) -> bool {
    meaning(value) matches Some(s) ==> if hex {
        prefixed_number(s) is Some
    } else {
        number(s, 10) is Some
    }
}

/// The value of the first attribute with a name, if there is one.
pub open spec fn first_value(attributes: Seq<AttributeV>, name: Seq<char>) -> Option<Seq<char>>
    decreases attributes.len(),
{
    if attributes.len() == 0 {
        None
    } else if attributes[0].name == name {
        Some(attributes[0].value)
    } else {
        first_value(attributes.skip(1), name)
    }
}

/// The value of the last attribute with a name, if there is one.
pub open spec fn last_value(attributes: Seq<AttributeV>, name: Seq<char>) -> Option<Seq<char>>
    decreases attributes.len(),
{
    if attributes.len() == 0 {
        None
    } else if attributes.last().name == name {
        Some(attributes.last().value)
    } else {
        last_value(attributes.drop_last(), name)
    }
}

/// Whether all attributes with a name are numbers.
pub open spec fn all_numbers(attributes: Seq<AttributeV>, name: Seq<char>) -> bool {
    forall|i: int|
        0 <= i < attributes.len() && (#[trigger] attributes[i]).name == name ==> number_readable(
            attributes[i].value,
            false,
        )
}

/// Whether the numbers and references of an element can be read.
pub open spec fn element_readable(element: Element, attributes: Seq<AttributeV>) -> bool {
    match element {
        Element::Interface => first_value(attributes, "version"@) matches Some(v) ==> number_readable(v, false),
        Element::Request | Element::Event => all_numbers(attributes, "since"@) && all_numbers(
            attributes,
            "deprecated-since"@,
        ),
        Element::Enumeration => first_value(attributes, "bitfield"@) matches Some(v) ==> meaning(v) is Some,
        Element::Entry => {
            &&& all_numbers(attributes, "since"@)
            &&& last_value(attributes, "value"@) matches Some(v) ==> number_readable(v, true)
        },
        Element::Description => first_value(attributes, "summary"@) matches Some(v) ==> meaning(v) is Some,
        _ => true,
    }
}

/// Whether the numbers and references in a piece of markup can be read.
pub open spec fn markup_readable(reading: Reading, markup: MarkupV) -> bool {
    match (reading.skipped, markup) {
        (Skipped::Nothing, MarkupV::Opening { name, attributes, closed }) => element_readable(
            element_at(reading.level, name, closed),
            attributes,
        ),
        _ => true,
    }
}

/// Whether the numbers and references of the protocol that goes on at `i` can be read.
pub open spec fn readable_from(t: Seq<char>, i: int, reading: Reading) -> bool
    decreases t.len() - i,
{
    if !(0 <= i < t.len()) || reading.level is Over {
        true
    } else if t[i] != '<' {
        readable_from(t, i + 1, reading)
    } else {
        match markup_at(t, i) {
            Some((end, markup)) if i < end <= t.len() => markup_readable(reading, markup) && readable_from(
                t,
                end,
                reading.after(markup),
            ),
            _ => true,
        }
    }
}

/// Whether the numbers and references of the protocol in a text can be read: the version of an interface,
/// the versions that messages and values of enums came and went with, and the values themselves are
/// numbers of 32 bits, and the references in summaries and in what tells whether an enum is a bit field
/// stand for characters.
pub open spec fn numbers_readable(t: Seq<char>) -> bool {
    readable_from(t, 0, Reading { level: Level::Start, skipped: Skipped::Nothing })
}

/// What `wayrs_proto_parser::parse_protocol` makes of a text: the interfaces of the protocol, or what
/// is wrong with the text.
pub uninterp spec fn parsed_protocol(text: Seq<char>) -> Result<Seq<InterfaceV>, Seq<char>>;

/// Calls `wayrs_proto_parser::parse_protocol`: the protocol that a text describes, or what is wrong
/// with the text. The result depends on the text alone. The parser panics where it comes to a version,
/// a `since`, a `deprecated-since` or a `value` that is no number of 32 bits, and where it comes to a
/// summary or a `bitfield` with a reference that stands for no character.
#[verifier::external_body]
fn parse_protocol(text: &str) -> (r: Result<wayrs_proto_parser::Protocol<'_>, String>)
    requires
        numbers_readable(text@),
    ensures
        match r {
            Ok(protocol) => parsed_protocol(text@) == Ok::<Seq<InterfaceV>, Seq<char>>(protocol_view(protocol)),
            Err(e) => parsed_protocol(text@) == Err::<Seq<InterfaceV>, Seq<char>>(e@),
        },
{
    wayrs_proto_parser::parse_protocol(text).map_err(|e| e.to_string())
}

fn find_element(level: Level, name: &Vec<char>, closed: bool) -> (r: Element)
    ensures
        r == element_at(level, name@, closed),
{
    match level {
        Level::Start => if closed {
            Element::Ignored
        } else if is_word(name, "protocol") {
            Element::Protocol
        } else {
            Element::Unexpected
        },
        Level::Protocol => if closed || is_word(name, "copyright") {
            Element::Ignored
        } else if is_word(name, "description") {
            Element::Description
        } else if is_word(name, "interface") {
            Element::Interface
        } else {
            Element::Unexpected
        },
        Level::Interface => if closed {
            Element::Ignored
        } else if is_word(name, "description") {
            Element::Description
        } else if is_word(name, "request") {
            Element::Request
        } else if is_word(name, "event") {
            Element::Event
        } else if is_word(name, "enum") {
            Element::Enumeration
        } else {
            Element::Unexpected
        },
        Level::Request | Level::Event => if is_word(name, "description") {
            Element::Description
        } else if closed && is_word(name, "arg") {
            Element::Ignored
        } else {
            Element::Unexpected
        },
        Level::Enumeration => if is_word(name, "description") {
            Element::Description
        } else if is_word(name, "entry") {
            Element::Entry
        } else {
            Element::Unexpected
        },
        Level::Over => Element::Ignored,
    }
}

impl Reading {
    fn leave(self, name: &Vec<char>) -> (r: Level)
        ensures
            r == self.level_left(name@),
    {
        match self.level {
            Level::Protocol => if is_word(name, "protocol") {
                Level::Over
            } else {
                Level::Protocol
            },
            Level::Interface => if is_word(name, "interface") {
                Level::Protocol
            } else {
                Level::Interface
            },
            Level::Request => if is_word(name, "request") {
                Level::Interface
            } else {
                Level::Request
            },
            Level::Event => if is_word(name, "event") {
                Level::Interface
            } else {
                Level::Event
            },
            Level::Enumeration => if is_word(name, "enum") {
                Level::Interface
            } else {
                Level::Enumeration
            },
            Level::Start => Level::Start,
            Level::Over => Level::Over,
        }
    }

    fn open(self, element: Element, closed: bool) -> (r: Reading)
        ensures
            r == self.opened(element, closed),
    {
        match element {
            Element::Protocol => Reading { level: Level::Protocol, ..self },
            Element::Interface => Reading { level: Level::Interface, ..self },
            Element::Request => Reading { level: Level::Request, ..self },
            Element::Event => Reading { level: Level::Event, ..self },
            Element::Enumeration => Reading { level: Level::Enumeration, ..self },
            Element::Entry => if closed {
                self
            } else {
                Reading { skipped: Skipped::Entry, ..self }
            },
            Element::Description => if closed {
                self
            } else {
                Reading { skipped: Skipped::Description, ..self }
            },
            Element::Unexpected => Reading { level: Level::Over, ..self },
            Element::Ignored => self,
        }
    }

    fn step(self, markup: &Markup) -> (r: Reading)
        ensures
            r == self.after(markup@),
    {
        match markup {
            Markup::Opening { name, closed, .. } => if self.skipped == Skipped::Nothing {
                self.open(find_element(self.level, name, *closed), *closed)
            } else {
                self
            },
            Markup::Closing { name } => match self.skipped {
                Skipped::Nothing => Reading { level: self.leave(name), ..self },
                Skipped::Description => if is_word(name, "description") {
                    Reading { skipped: Skipped::Nothing, ..self }
                } else {
                    self
                },
                Skipped::Entry => if is_word(name, "entry") {
                    Reading { skipped: Skipped::Nothing, ..self }
                } else {
                    self
                },
            },
            Markup::Other => self,
        }
    }
}

fn has_number(value: &Vec<char>, hex: bool) -> (r: bool)
    ensures
        r == number_readable(value@, hex),
{
    match read_value(value) {
        Some(s) => is_number(&s, hex),
        None => true,
    }
}

fn find_first(attributes: &Vec<Attribute>, name: &str) -> (r: Option<usize>)
    ensures
        match r {
            Some(i) => i < attributes@.len() && first_value(attribute_views(attributes@), name@) == Some(
                attributes@[i as int].value@,
            ),
            None => first_value(attribute_views(attributes@), name@) is None,
        },
{
    let ghost all = attribute_views(attributes@);
    let mut i: usize = 0;
    assert(all.skip(0) =~= all);
    while i < attributes.len()
        invariant
            i <= attributes.len(),
            all == attribute_views(attributes@),
            first_value(all, name@) == first_value(all.skip(i as int), name@),
        decreases attributes.len() - i,
    {
        assert(all.skip(i as int)[0] == attributes@[i as int]@);
        if is_word(&attributes[i].name, name) {
            return Some(i);
        }
        assert(all.skip(i as int).skip(1) =~= all.skip(i + 1));
        i = i + 1;
    }
    None
}

fn find_last(attributes: &Vec<Attribute>, name: &str) -> (r: Option<usize>)
    ensures
        match r {
            Some(i) => i < attributes@.len() && last_value(attribute_views(attributes@), name@) == Some(
                attributes@[i as int].value@,
            ),
            None => last_value(attribute_views(attributes@), name@) is None,
        },
{
    let ghost all = attribute_views(attributes@);
    let mut n: usize = attributes.len();
    assert(all.take(n as int) =~= all);
    while n > 0
        invariant
            n <= attributes.len(),
            all == attribute_views(attributes@),
            last_value(all, name@) == last_value(all.take(n as int), name@),
        decreases n,
    {
        assert(all.take(n as int).last() == attributes@[n - 1]@);
        if is_word(&attributes[n - 1].name, name) {
            return Some(n - 1);
        }
        assert(all.take(n as int).drop_last() =~= all.take(n - 1));
        n = n - 1;
    }
    None
}

fn has_numbers(attributes: &Vec<Attribute>, name: &str) -> (r: bool)
    ensures
        r == all_numbers(attribute_views(attributes@), name@),
{
    let ghost all = attribute_views(attributes@);
    let mut i: usize = 0;
    while i < attributes.len()
        invariant
            i <= attributes.len(),
            all == attribute_views(attributes@),
            forall|j: int| 0 <= j < i && (#[trigger] all[j]).name == name@ ==> number_readable(all[j].value, false),
        decreases attributes.len() - i,
    {
        assert(all[i as int] == attributes@[i as int]@);
        if is_word(&attributes[i].name, name) && !has_number(&attributes[i].value, false) {
            return false;
        }
        i = i + 1;
    }
    true
}

fn element_is_readable(element: Element, attributes: &Vec<Attribute>) -> (r: bool)
    ensures
        r == element_readable(element, attribute_views(attributes@)),
{
    match element {
        Element::Interface => match find_first(attributes, "version") {
            Some(i) => has_number(&attributes[i].value, false),
            None => true,
        },
        Element::Request | Element::Event => has_numbers(attributes, "since") && has_numbers(
            attributes,
            "deprecated-since",
        ),
        Element::Enumeration => match find_first(attributes, "bitfield") {
            Some(i) => read_value(&attributes[i].value).is_some(),
            None => true,
        },
        Element::Entry => has_numbers(attributes, "since") && match find_last(attributes, "value") {
            Some(i) => has_number(&attributes[i].value, true),
            None => true,
        },
        Element::Description => match find_first(attributes, "summary") {
            Some(i) => read_value(&attributes[i].value).is_some(),
            None => true,
        },
        _ => true,
    }
}

fn markup_is_readable(reading: Reading, markup: &Markup) -> (r: bool)
    ensures
        r == markup_readable(reading, markup@),
{
    match markup {
        Markup::Opening { name, attributes, closed } => if reading.skipped == Skipped::Nothing {
            element_is_readable(find_element(reading.level, name, *closed), attributes)
        } else {
            true
        },
        _ => true,
    }
}

/// Whether the numbers and references of the protocol in a text can be read.
fn is_readable(t: &Vec<char>) -> (r: bool)
    ensures
        r == numbers_readable(t@),
{
    let mut reading = Reading { level: Level::Start, skipped: Skipped::Nothing };
    let mut i: usize = 0;
    while i < t.len() && reading.level != Level::Over
        invariant
            i <= t.len(),
            numbers_readable(t@) == readable_from(t@, i as int, reading),
        decreases t.len() - i,
    {
        if t[i] != '<' {
            i = i + 1;
        } else {
            match read_markup(t, i) {
                Some((end, markup)) => {
                    if !markup_is_readable(reading, &markup) {
                        return false;
                    }
                    reading = reading.step(&markup);
                    i = end;
                },
                None => {
                    return true;
                },
            }
        }
    }
    true
}

/// Reads the text of a protocol. Where a text has a number that cannot be read and is not the text of a
/// protocol either, one of the two is told.
pub fn read_protocol(text: &str) -> (r: Result<Vec<InterfaceText>, ScanError>)
    ensures
        match r {
            Ok(interfaces) => numbers_readable(text@) && parsed_protocol(text@) == Ok::<Seq<InterfaceV>, Seq<char>>(
                interface_views(interfaces@),
            ),
            Err(ScanError::Unreadable) => !numbers_readable(text@),
            Err(ScanError::Parse(e)) => numbers_readable(text@) && parsed_protocol(text@) == Err::<
                Seq<InterfaceV>,
                Seq<char>,
            >(e@),
            Err(ScanError::Unsound) => false,
        },
{
    let chars = chars_of(text);
    if !is_readable(&chars) {
        return Err(ScanError::Unreadable);
    }
    match parse_protocol(text) {
        Ok(protocol) => Ok(interfaces_of(&protocol)),
        Err(e) => Err(ScanError::Parse(e)),
    }
}

} // verus!
