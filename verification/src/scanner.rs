//! What is generated for the messages of a protocol.
use vstd::prelude::*;

verus! {

/// The type of an argument in a protocol description. Interfaces and enums are named.
#[derive(Debug)]
pub enum ArgKind {
    Int,
    Uint,
    /// A value of an enum. The enum of another interface is named after that interface and a dot.
    Enum(Vec<char>),
    Fixed,
    Object { allow_null: bool, iface: Option<Vec<char>> },
    NewId { iface: Option<Vec<char>> },
    Text { allow_null: bool },
    Array,
    Fd,
}

/// How an argument is laid out in a message.
#[derive(Debug, Clone, Copy, PartialEq, Eq, Structural)]
pub enum WireType {
    Int,
    Uint,
    Fixed,
    Object,
    OptObject,
    NewId,
    AnyNewId,
    Text,
    OptText,
    Array,
    Fd,
}

impl WireType {
    /// The name of the layout.
    pub open spec fn layout_name(self) -> Seq<char> {
        match self {
            WireType::Int => "Int"@,
            WireType::Uint => "Uint"@,
            WireType::Fixed => "Fixed"@,
            WireType::Object => "Object"@,
            WireType::OptObject => "OptObject"@,
            WireType::NewId => "NewId"@,
            WireType::AnyNewId => "AnyNewId"@,
            WireType::Text => "String"@,
            WireType::OptText => "OptString"@,
            WireType::Array => "Array"@,
            WireType::Fd => "Fd"@,
        }
    }

    /// The name of the layout.
    pub fn name(self) -> (r: &'static str)
        ensures
            r@ == self.layout_name(),
    {
        match self {
            WireType::Int => "Int",
            WireType::Uint => "Uint",
            WireType::Fixed => "Fixed",
            WireType::Object => "Object",
            WireType::OptObject => "OptObject",
            WireType::NewId => "NewId",
            WireType::AnyNewId => "AnyNewId",
            WireType::Text => "String",
            WireType::OptText => "OptString",
            WireType::Array => "Array",
            WireType::Fd => "Fd",
        }
    }
}

impl ArgKind {
    /// How an argument of the type is laid out.
    pub open spec fn wire(self) -> WireType {
        match self {
            ArgKind::Int => WireType::Int,
            ArgKind::Uint => WireType::Uint,
            ArgKind::Enum(_) => WireType::Uint,
            ArgKind::Fixed => WireType::Fixed,
            ArgKind::Object { allow_null, .. } => if allow_null {
                WireType::OptObject
            } else {
                WireType::Object
            },
            ArgKind::NewId { iface } => if iface is Some {
                WireType::NewId
            } else {
                WireType::AnyNewId
            },
            ArgKind::Text { allow_null } => if allow_null {
                WireType::OptText
            } else {
                WireType::Text
            },
            ArgKind::Array => WireType::Array,
            ArgKind::Fd => WireType::Fd,
        }
    }

    /// How an argument of the type is laid out.
    pub fn map_arg_to_argtype(&self) -> (r: WireType)
        ensures
            r == self.wire(),
    {
        match self {
            ArgKind::Int => WireType::Int,
            ArgKind::Uint => WireType::Uint,
            ArgKind::Enum(_) => WireType::Uint,
            ArgKind::Fixed => WireType::Fixed,
            ArgKind::Object { allow_null, .. } => if *allow_null {
                WireType::OptObject
            } else {
                WireType::Object
            },
            ArgKind::NewId { iface } => if iface.is_some() {
                WireType::NewId
            } else {
                WireType::AnyNewId
            },
            ArgKind::Text { allow_null } => if *allow_null {
                WireType::OptText
            } else {
                WireType::Text
            },
            ArgKind::Array => WireType::Array,
            ArgKind::Fd => WireType::Fd,
        }
    }
}

/// How an argument of a request is read.
#[derive(Debug, Clone, Copy, PartialEq, Eq, Structural)]
pub enum Decoding {
    /// It is what stands in the message.
    Plain,
    /// It has to be a value of its enum.
    EnumValue,
    /// It is an interface, a version and a number.
    AnyNewId,
    /// It has to be the number of an object of its interface.
    Lookup,
    /// If there is one, it has to be the number of an object of its interface.
    OptLookup,
}

/// How an argument of an event is written.
#[derive(Debug, Clone, Copy, PartialEq, Eq, Structural)]
pub enum Encoding {
    /// It is converted.
    Plain,
    /// It is the number of an object.
    ObjectId,
    /// If there is an object, it is its number.
    OptObjectId,
}

/// What an argument is in generated code.
#[derive(Debug, Clone, Copy, PartialEq, Eq, Structural)]
pub enum CodeType {
    I32,
    U32,
    Fixed,
    /// A value of an enum of the same interface.
    OwnEnum,
    /// A value of an enum of another interface.
    OtherEnum,
    /// An object of a known interface.
    Proxy,
    OptProxy,
    /// An object of an unknown interface.
    AnyObject,
    OptAnyObject,
    /// An interface, a version and a number.
    AnyNewId,
    Text,
    OptText,
    Bytes,
    Fd,
}

impl ArgKind {
    /// How an argument of the type is read.
    pub open spec fn decoding(self) -> Decoding {
        match self {
            ArgKind::Enum(_) => Decoding::EnumValue,
            ArgKind::NewId { iface: None } => Decoding::AnyNewId,
            ArgKind::NewId { iface: Some(_) } => Decoding::Lookup,
            ArgKind::Object { iface: Some(_), allow_null: false } => Decoding::Lookup,
            ArgKind::Object { iface: Some(_), allow_null: true } => Decoding::OptLookup,
            _ => Decoding::Plain,
        }
    }

    /// How an argument of the type is read.
    pub fn arg_decode(&self) -> (r: Decoding)
        ensures
            r == self.decoding(),
    {
        match self {
            ArgKind::Enum(_) => Decoding::EnumValue,
            ArgKind::NewId { iface } => if iface.is_some() {
                Decoding::Lookup
            } else {
                Decoding::AnyNewId
            },
            ArgKind::Object { iface, allow_null } => if iface.is_some() {
                if *allow_null {
                    Decoding::OptLookup
                } else {
                    Decoding::Lookup
                }
            } else {
                Decoding::Plain
            },
            _ => Decoding::Plain,
        }
    }

    /// How an argument of the type is written.
    pub open spec fn encoding(self) -> Encoding {
        match self {
            ArgKind::NewId { iface: Some(_) } => Encoding::ObjectId,
            ArgKind::Object { iface: Some(_), allow_null: false } => Encoding::ObjectId,
            ArgKind::Object { iface: Some(_), allow_null: true } => Encoding::OptObjectId,
            _ => Encoding::Plain,
        }
    }

    /// How an argument of the type is written.
    pub fn msg_arg(&self) -> (r: Encoding)
        ensures
            r == self.encoding(),
    {
        match self {
            ArgKind::NewId { iface } => if iface.is_some() {
                Encoding::ObjectId
            } else {
                Encoding::Plain
            },
            ArgKind::Object { iface, allow_null } => if iface.is_some() {
                if *allow_null {
                    Encoding::OptObjectId
                } else {
                    Encoding::ObjectId
                }
            } else {
                Encoding::Plain
            },
            _ => Encoding::Plain,
        }
    }

    /// What an argument of the type is in generated code.
    pub open spec fn code_type(self) -> CodeType {
        match self {
            ArgKind::Int => CodeType::I32,
            ArgKind::Uint => CodeType::U32,
            ArgKind::Enum(name) => if name@.contains('.') {
                CodeType::OtherEnum
            } else {
                CodeType::OwnEnum
            },
            ArgKind::Fixed => CodeType::Fixed,
            ArgKind::Object { iface: None, allow_null: false } => CodeType::AnyObject,
            ArgKind::Object { iface: None, allow_null: true } => CodeType::OptAnyObject,
            ArgKind::Object { iface: Some(_), allow_null: false } => CodeType::Proxy,
            ArgKind::Object { iface: Some(_), allow_null: true } => CodeType::OptProxy,
            ArgKind::NewId { iface: None } => CodeType::AnyNewId,
            ArgKind::NewId { iface: Some(_) } => CodeType::Proxy,
            ArgKind::Text { allow_null: false } => CodeType::Text,
            ArgKind::Text { allow_null: true } => CodeType::OptText,
            ArgKind::Array => CodeType::Bytes,
            ArgKind::Fd => CodeType::Fd,
        }
    }

    /// What an argument of the type is in generated code.
    pub fn as_request_ty(&self) -> (r: CodeType)
        ensures
            r == self.code_type(),
    {
        match self {
            ArgKind::Int => CodeType::I32,
            ArgKind::Uint => CodeType::U32,
            ArgKind::Enum(name) => if find_dot(name) < name.len() {
                CodeType::OtherEnum
            } else {
                CodeType::OwnEnum
            },
            ArgKind::Fixed => CodeType::Fixed,
            ArgKind::Object { iface, allow_null } => match (iface.is_some(), *allow_null) {
                (false, false) => CodeType::AnyObject,
                (false, true) => CodeType::OptAnyObject,
                (true, false) => CodeType::Proxy,
                (true, true) => CodeType::OptProxy,
            },
            ArgKind::NewId { iface } => if iface.is_some() {
                CodeType::Proxy
            } else {
                CodeType::AnyNewId
            },
            ArgKind::Text { allow_null } => if *allow_null {
                CodeType::OptText
            } else {
                CodeType::Text
            },
            ArgKind::Array => CodeType::Bytes,
            ArgKind::Fd => CodeType::Fd,
        }
    }
}

/// The place of the first dot, or the length of the text.
fn find_dot(text: &Vec<char>) -> (r: usize)
    ensures
        r <= text@.len(),
        r < text@.len() ==> text@[r as int] == '.',
        forall|j: int| 0 <= j < r ==> text@[j] != '.',
        (r < text@.len()) == text@.contains('.'),
{
    let mut i: usize = 0;
    while i < text.len()
        invariant
            i <= text.len(),
            forall|j: int| 0 <= j < i ==> text@[j] != '.',
        decreases text.len() - i,
    {
        if text[i] == '.' {
            return i;
        }
        i = i + 1;
    }
    i
}

/// Whether two texts joined by a dot are a text, and the first of them has no dot.
pub open spec fn split_at_dot(text: Seq<char>, iface: Seq<char>, name: Seq<char>) -> bool {
    &&& text == iface.push('.') + name
    &&& !iface.contains('.')
}

/// Splits the name of an enum of another interface into the name of the interface and its own.
pub fn split_once(text: &Vec<char>) -> (r: Option<(Vec<char>, Vec<char>)>)
    ensures
        r is Some == text@.contains('.'),
        r matches Some(p) ==> split_at_dot(text@, p.0@, p.1@),
{
    let dot = find_dot(text);
    if dot == text.len() {
        return None;
    }
    let mut iface: Vec<char> = Vec::new();
    let mut i: usize = 0;
    while i < dot
        invariant
            i <= dot,
            dot < text.len(),
            iface@ == text@.take(i as int),
        decreases dot - i,
    {
        iface.push(text[i]);
        assert(iface@ =~= text@.take(i + 1));
        i = i + 1;
    }
    let mut name: Vec<char> = Vec::new();
    i = dot + 1;
    while i < text.len()
        invariant
            dot + 1 <= i <= text.len(),
            name@ == text@.subrange(dot + 1, i as int),
        decreases text.len() - i,
    {
        name.push(text[i]);
        assert(name@ =~= text@.subrange(dot + 1, i + 1));
        i = i + 1;
    }
    assert(text@ =~= iface@.push('.') + name@);
    Some((iface, name))
}

/// There is one way to split a name at its first dot.
pub proof fn law_split_is_one(text: Seq<char>, a: Seq<char>, b: Seq<char>, c: Seq<char>, d: Seq<char>)
    requires
        split_at_dot(text, a, b),
        split_at_dot(text, c, d),
    ensures
        a == c,
        b == d,
{
    assert(text[a.len() as int] == '.');
    assert(text[c.len() as int] == '.');
    if a.len() < c.len() {
        assert(c[a.len() as int] == text[a.len() as int]);
    }
    if c.len() < a.len() {
        assert(a[c.len() as int] == text[c.len() as int]);
    }
    assert forall|i: int| 0 <= i < a.len() implies a[i] == c[i] by {
        assert(text[i] == a[i]);
        assert(text[i] == c[i]);
    }
    assert(a =~= c);
    assert(text.len() == a.len() + 1 + b.len());
    assert(text.len() == c.len() + 1 + d.len());
    assert forall|i: int| 0 <= i < b.len() implies b[i] == d[i] by {
        assert(text[a.len() + 1 + i] == b[i]);
        assert(text[a.len() + 1 + i] == d[i]);
    }
    assert(b =~= d);
}

/// The capital of a small letter of the alphabet; all other characters are their own.
pub open spec fn capital(c: char) -> char {
    if 'a' <= c <= 'z' {
        (c as u8 - 32) as char
    } else {
        c
    }
}

fn to_capital(c: char) -> (r: char)
    ensures
        r == capital(c),
{
    if 'a' <= c && c <= 'z' {
        (c as u8 - 32) as char
    } else {
        c
    }
}

/// A name without its underscores, where the first letter and every letter that followed an
/// underscore is a capital.
pub open spec fn pascal(name: Seq<char>) -> Seq<char>
    decreases name.len(),
{
    if name.len() == 0 {
        Seq::empty()
    } else {
        let before = pascal(name.drop_last());
        let c = name.last();
        if c == '_' {
            before
        } else if name.len() == 1 || name[name.len() - 2] == '_' {
            before.push(capital(c))
        } else {
            before.push(c)
        }
    }
}

/// Takes the underscores out of a name and writes its words with capitals.
pub fn snake_to_pascal(name: &Vec<char>) -> (r: Vec<char>)
    ensures
        r@ == pascal(name@),
{
    let mut r: Vec<char> = Vec::new();
    let mut i: usize = 0;
    assert(name@.take(0) =~= Seq::<char>::empty());
    while i < name.len()
        invariant
            i <= name.len(),
            r@ == pascal(name@.take(i as int)),
        decreases name.len() - i,
    {
        let ghost t = name@.take(i + 1);
        assert(t.drop_last() =~= name@.take(i as int));
        assert(t.last() == name@[i as int]);
        assert(i > 0 ==> t[t.len() - 2] == name@[i - 1]);
        let c: char = name[i];
        if c != '_' {
            if i == 0 || name[i - 1] == '_' {
                r.push(to_capital(c));
            } else {
                r.push(c);
            }
        }
        i = i + 1;
    }
    assert(name@.take(i as int) =~= name@);
    r
}

/// The name of a type or a variant. A name that begins with a digit gets an underscore before it.
pub open spec fn pascal_ident(name: Seq<char>) -> Seq<char> {
    if '0' <= name[0] <= '9' {
        seq!['_'] + name
    } else {
        pascal(name)
    }
}

/// The name of a type or a variant.
pub fn make_pascal_case_ident(name: &Vec<char>) -> (r: Vec<char>)
    requires
        name@.len() > 0,
    ensures
        r@ == pascal_ident(name@),
{
    if '0' <= name[0] && name[0] <= '9' {
        let mut r: Vec<char> = Vec::new();
        r.push('_');
        let mut i: usize = 0;
        while i < name.len()
            invariant
                i <= name.len(),
                r@ == seq!['_'] + name@.take(i as int),
            decreases name.len() - i,
        {
            r.push(name[i]);
            assert(r@ =~= seq!['_'] + name@.take(i + 1));
            i = i + 1;
        }
        assert(name@.take(i as int) =~= name@);
        r
    } else {
        snake_to_pascal(name)
    }
}

/// What a request is in generated code.
#[derive(Debug, Clone, Copy, PartialEq, Eq, Structural)]
pub enum RequestShape {
    /// It has no arguments.
    Unit,
    /// It holds its one argument.
    Single,
    /// It holds a structure of its arguments.
    Struct,
}

/// What a request with a number of arguments is in generated code.
pub fn request_shape(args: usize) -> (r: RequestShape)
    ensures
        r is Unit == (args == 0),
        r is Single == (args == 1),
        r is Struct == (args > 1),
{
    if args == 0 {
        RequestShape::Unit
    } else if args == 1 {
        RequestShape::Single
    } else {
        RequestShape::Struct
    }
}

/// Whether a message of a kind ends its object.
pub fn is_destructor(kind: &Option<String>) -> (r: bool)
    ensures
        r == (kind matches Some(k) && k@ == "destructor"@),
{
    match kind {
        Some(k) => {
            let d: String = "destructor".to_owned();
            *k == d
        },
        None => false,
    }
}

/// A line of documentation.
#[derive(Debug, Clone, Copy, PartialEq, Eq, Structural)]
pub enum DocLine {
    /// The summary.
    Summary,
    /// An empty line.
    Blank,
    /// A line of the text, by its place.
    Text(usize),
    /// The version that the item came with.
    Since(u32),
}

/// The lines of a text, by their places.
pub open spec fn text_lines(n: nat) -> Seq<DocLine> {
    Seq::new(n, |i: int| DocLine::Text(i as usize))
}

/// The documentation of an item: the summary, the text and the version, each if it is there, with an
/// empty line after each.
pub open spec fn doc_lines(summary: bool, lines: usize, since: Option<u32>) -> Seq<DocLine> {
    let head = if summary {
        seq![DocLine::Summary, DocLine::Blank]
    } else {
        seq![DocLine::Blank]
    };
    let tail = match since {
        Some(v) => seq![DocLine::Blank, DocLine::Since(v), DocLine::Blank],
        None => seq![DocLine::Blank, DocLine::Blank],
    };
    head + text_lines(lines as nat) + tail
}

/// The documentation of an item.
pub fn gen_doc(summary: bool, lines: usize, since: Option<u32>) -> (r: Vec<DocLine>)
    ensures
        r@ == doc_lines(summary, lines, since),
{
    let mut r: Vec<DocLine> = Vec::new();
    if summary {
        r.push(DocLine::Summary);
    }
    r.push(DocLine::Blank);
    let ghost head = r@;
    let mut i: usize = 0;
    assert(head + text_lines(0) =~= head);
    while i < lines
        invariant
            i <= lines,
            r@ == head + text_lines(i as nat),
        decreases lines - i,
    {
        r.push(DocLine::Text(i));
        assert(r@ =~= head + text_lines((i + 1) as nat));
        i = i + 1;
    }
    r.push(DocLine::Blank);
    if let Some(v) = since {
        r.push(DocLine::Since(v));
    }
    r.push(DocLine::Blank);
    assert(r@ =~= doc_lines(summary, lines, since));
    r
}

} // verus!
