//! The markup of a text: its tags and their attributes.
use vstd::prelude::*;

use crate::protocol_text::chars_of;

verus! {

/// Whether a character is white space.
pub open spec fn is_space(c: char) -> bool {
    c == ' ' || c == '\t' || c == '\n' || c == '\r'
}

/// Whether a character is a quote.
pub open spec fn is_quote(c: char) -> bool {
    c == '"' || c == '\''
}

/// The first place from `i` on that holds a character, or the end of the text.
pub open spec fn place_of_char(t: Seq<char>, i: int, c: char) -> int
    decreases t.len() - i,
{
    if 0 <= i < t.len() && t[i] != c {
        place_of_char(t, i + 1, c)
    } else {
        i
    }
}

/// The first place from `i` on that holds no white space.
pub open spec fn after_spaces(t: Seq<char>, i: int) -> int
    decreases t.len() - i,
{
    if 0 <= i < t.len() && is_space(t[i]) {
        after_spaces(t, i + 1)
    } else {
        i
    }
}

/// The first place from `i` on that holds white space or, where `eq` is set, an equals sign.
pub open spec fn word_end(t: Seq<char>, i: int, eq: bool) -> int
    decreases t.len() - i,
{
    if 0 <= i < t.len() && !is_space(t[i]) && !(eq && t[i] == '=') {
        word_end(t, i + 1, eq)
    } else {
        i
    }
}

/// Whether a word stands in a place of a text.
pub open spec fn stands_at(t: Seq<char>, i: int, word: Seq<char>) -> bool {
    0 <= i && i + word.len() <= t.len() && t.subrange(i, i + word.len()) == word
}

/// The place after the first of some words that stand at `i` or later, if there is one.
pub open spec fn after_word(t: Seq<char>, i: int, word: Seq<char>) -> Option<int>
    decreases t.len() - i,
{
    if i < 0 || i >= t.len() || i + word.len() > t.len() {
        None
    } else if stands_at(t, i, word) {
        Some(i + word.len())
    } else {
        after_word(t, i + 1, word)
    }
}

/// The first place from `i` on that holds a closing bracket outside of quotes, or the end of the text.
pub open spec fn tag_end(t: Seq<char>, i: int) -> int
    decreases t.len() - i,
{
    if !(0 <= i < t.len()) || t[i] == '>' {
        i
    } else if is_quote(t[i]) {
        let q = place_of_char(t, i + 1, t[i]);
        if i < q < t.len() {
            tag_end(t, q + 1)
        } else {
            t.len() as int
        }
    } else {
        tag_end(t, i + 1)
    }
}

/// The place after a declaration whose opening bracket stands before `i`, if it ends.
pub open spec fn after_declaration(t: Seq<char>, i: int) -> Option<int> {
    if stands_at(t, i, "?"@) {
        after_word(t, i + 1, "?>"@)
    } else if stands_at(t, i, "!--"@) {
        after_word(t, i + 3, "-->"@)
    } else if stands_at(t, i, "!ENTITY"@) || stands_at(t, i, "!ATTLIST"@) || stands_at(t, i, "!NOTATION"@) {
        if tag_end(t, i) < t.len() {
            Some(tag_end(t, i) + 1)
        } else {
            None
        }
    } else {
        after_word(t, i, ">"@)
    }
}

/// The place after a document type whose declarations go on at `i`, if it ends.
pub open spec fn after_declarations(t: Seq<char>, i: int) -> Option<int>
    decreases t.len() - i,
{
    if !(0 <= i < t.len()) {
        None
    } else if t[i] == ']' {
        after_word(t, i, ">"@)
    } else if t[i] == '<' {
        match after_declaration(t, i + 1) {
            Some(k) if i < k <= t.len() => after_declarations(t, k),
            _ => None,
        }
    } else {
        after_declarations(t, i + 1)
    }
}

/// The place after a document type whose name or address goes on at `i`, if it ends.
pub open spec fn after_doctype(t: Seq<char>, i: int) -> Option<int>
    decreases t.len() - i,
{
    if !(0 <= i < t.len()) {
        None
    } else if t[i] == '>' {
        Some(i + 1)
    } else if t[i] == '[' {
        after_declarations(t, i + 1)
    } else if is_quote(t[i]) {
        let q = place_of_char(t, i + 1, t[i]);
        if i < q < t.len() {
            after_doctype(t, q + 1)
        } else {
            None
        }
    } else {
        after_doctype(t, i + 1)
    }
}

/// An attribute of a tag, as it is written.
#[derive(Debug)]
pub struct Attribute {
    pub name: Vec<char>,
    pub value: Vec<char>,
}

/// What an [`Attribute`] says.
#[verifier::ext_equal]
pub struct AttributeV {
    pub name: Seq<char>,
    pub value: Seq<char>,
}

impl View for Attribute {
    type V = AttributeV;

    open spec fn view(&self) -> AttributeV {
        AttributeV { name: self.name@, value: self.value@ }
    }
}

/// What several attributes say.
pub open spec fn attribute_views(s: Seq<Attribute>) -> Seq<AttributeV> {
    s.map_values(|a: Attribute| a@)
}

/// The attributes from `i` on, up to the first that is not written as one.
pub open spec fn attributes_from(s: Seq<char>, i: int) -> Seq<AttributeV>
    decreases s.len() - i,
{
    let name = after_spaces(s, i);
    let end = word_end(s, name + 1, true);
    let eq = after_spaces(s, end);
    let open = after_spaces(s, eq + 1);
    let close = place_of_char(s, open + 1, s[open]);
    if name < s.len() && eq < s.len() && s[eq] == '=' && open < s.len() && is_quote(s[open]) && 0 <= i <= close
        < s.len() {
        seq![AttributeV { name: s.subrange(name, end), value: s.subrange(open + 1, close) }] + attributes_from(
            s,
            close + 1,
        )
    } else {
        Seq::empty()
    }
}

/// A piece of markup.
#[derive(Debug)]
pub enum Markup {
    /// A comment, or something else that is no tag.
    Other,
    /// A tag that opens an element and, where `closed` is set, closes it at once.
    Opening { name: Vec<char>, attributes: Vec<Attribute>, closed: bool },
    /// A tag that closes an element.
    Closing { name: Vec<char> },
}

/// What a [`Markup`] says.
#[verifier::ext_equal]
pub enum MarkupV {
    Other,
    Opening { name: Seq<char>, attributes: Seq<AttributeV>, closed: bool },
    Closing { name: Seq<char> },
}

impl View for Markup {
    type V = MarkupV;

    open spec fn view(&self) -> MarkupV {
        match self {
            Markup::Other => MarkupV::Other,
            Markup::Opening { name, attributes, closed } => MarkupV::Opening {
                name: name@,
                attributes: attribute_views(attributes@),
                closed: *closed,
            },
            Markup::Closing { name } => MarkupV::Closing { name: name@ },
        }
    }
}

/// The opening tag with some text between its brackets.
pub open spec fn opening_tag(s: Seq<char>) -> MarkupV {
    let closed = s.len() > 0 && s.last() == '/';
    let inner = if closed {
        s.drop_last()
    } else {
        s
    };
    let end = word_end(inner, 0, false);
    MarkupV::Opening { name: inner.take(end), attributes: attributes_from(inner, end), closed }
}

/// A text without the white space at its end.
pub open spec fn without_end_spaces(s: Seq<char>) -> Seq<char>
    decreases s.len(),
{
    if s.len() > 0 && is_space(s.last()) {
        without_end_spaces(s.drop_last())
    } else {
        s
    }
}

/// What is no tag and ends before a place, if it ends.
pub open spec fn other_until(end: Option<int>) -> Option<(int, MarkupV)> {
    match end {
        Some(end) => Some((end, MarkupV::Other)),
        None => None,
    }
}

/// The markup whose opening bracket stands in a place, and the place after it. There is none if it does
/// not end, or is of no known kind.
pub open spec fn markup_at(t: Seq<char>, i: int) -> Option<(int, MarkupV)> {
    let end = tag_end(t, i);
    if stands_at(t, i, "<!--"@) {
        other_until(after_word(t, i + 4, "-->"@))
    } else if stands_at(t, i, "<![CDATA["@) {
        other_until(after_word(t, i + 9, "]]>"@))
    } else if stands_at(t, i, "<!D"@) || stands_at(t, i, "<!d"@) {
        other_until(after_doctype(t, i))
    } else if stands_at(t, i, "<!"@) {
        None
    } else if stands_at(t, i, "<?"@) {
        other_until(after_word(t, i + 1, "?>"@))
    } else if end >= t.len() {
        None
    } else if stands_at(t, i, "</"@) {
        Some((end + 1, MarkupV::Closing { name: without_end_spaces(t.subrange(i + 2, end)) }))
    } else {
        Some((end + 1, opening_tag(t.subrange(i + 1, end))))
    }
}

/// The first place from `from` on that holds a character, or the end.
pub fn find_char(t: &Vec<char>, from: usize, c: char) -> (r: usize)
    requires
        from <= t.len(),
    ensures
        r == place_of_char(t@, from as int, c),
        from <= r <= t.len(),
        r < t.len() ==> t@[r as int] == c,
{
    let mut i: usize = from;
    while i < t.len() && t[i] != c
        invariant
            from <= i <= t.len(),
            place_of_char(t@, from as int, c) == place_of_char(t@, i as int, c),
        decreases t.len() - i,
    {
        i = i + 1;
    }
    i
}

fn skip_spaces(t: &Vec<char>, from: usize) -> (r: usize)
    requires
        from <= t.len(),
    ensures
        r == after_spaces(t@, from as int),
        from <= r <= t.len(),
{
    let mut i: usize = from;
    while i < t.len() && (t[i] == ' ' || t[i] == '\t' || t[i] == '\n' || t[i] == '\r')
        invariant
            from <= i <= t.len(),
            after_spaces(t@, from as int) == after_spaces(t@, i as int),
        decreases t.len() - i,
    {
        i = i + 1;
    }
    i
}

fn find_word_end(t: &Vec<char>, from: usize, eq: bool) -> (r: usize)
    requires
        from <= t.len(),
    ensures
        r == word_end(t@, from as int, eq),
        from <= r <= t.len(),
{
    let mut i: usize = from;
    while i < t.len() && !(t[i] == ' ' || t[i] == '\t' || t[i] == '\n' || t[i] == '\r') && !(eq && t[i] == '=')
        invariant
            from <= i <= t.len(),
            word_end(t@, from as int, eq) == word_end(t@, i as int, eq),
        decreases t.len() - i,
    {
        i = i + 1;
    }
    i
}

fn is_at(t: &Vec<char>, i: usize, word: &str) -> (r: bool)
    requires
        i <= t.len(),
    ensures
        r == stands_at(t@, i as int, word@),
{
    let w = chars_of(word);
    let len: usize = t.len();
    if w.len() > len - i {
        return false;
    }
    let mut k: usize = 0;
    while k < w.len()
        invariant
            k <= w.len(),
            len == t@.len(),
            w@ == word@,
            i + w@.len() <= len,
            forall|j: int| 0 <= j < k ==> t@[i + j] == #[trigger] w@[j],
        decreases w.len() - k,
    {
        if t[i + k] != w[k] {
            assert(t@.subrange(i as int, i + w@.len())[k as int] != w@[k as int]);
            return false;
        }
        k = k + 1;
    }
    assert(t@.subrange(i as int, i + w@.len()) =~= w@);
    true
}

fn find_after(t: &Vec<char>, from: usize, word: &str) -> (r: Option<usize>)
    requires
        from <= t.len(),
        word@.len() > 0,
    ensures
        match r {
            Some(k) => after_word(t@, from as int, word@) == Some(k as int) && from < k <= t.len(),
            None => after_word(t@, from as int, word@) is None,
        },
{
    let mut i: usize = from;
    while i < t.len()
        invariant
            from <= i <= t.len(),
            word@.len() > 0,
            after_word(t@, from as int, word@) == after_word(t@, i as int, word@),
        decreases t.len() - i,
    {
        if is_at(t, i, word) {
            return Some(i + chars_of(word).len());
        }
        i = i + 1;
    }
    None
}

fn find_tag_end(t: &Vec<char>, from: usize) -> (r: usize)
    requires
        from <= t.len(),
    ensures
        r == tag_end(t@, from as int),
        from <= r <= t.len(),
        r < t.len() ==> t@[r as int] == '>',
{
    let mut i: usize = from;
    while i < t.len() && t[i] != '>'
        invariant
            from <= i <= t.len(),
            tag_end(t@, from as int) == tag_end(t@, i as int),
        decreases t.len() - i,
    {
        if t[i] == '"' || t[i] == '\'' {
            let q = find_char(t, i + 1, t[i]);
            if q >= t.len() {
                return t.len();
            }
            i = q + 1;
        } else {
            i = i + 1;
        }
    }
    i
}

fn skip_declaration(t: &Vec<char>, i: usize) -> (r: Option<usize>)
    requires
        i <= t.len(),
    ensures
        match r {
            Some(k) => after_declaration(t@, i as int) == Some(k as int) && i < k <= t.len(),
            None => after_declaration(t@, i as int) is None,
        },
{
    proof {
        reveal_strlit("?");
        reveal_strlit("?>");
        reveal_strlit("!--");
        reveal_strlit("-->");
        reveal_strlit(">");
        reveal_strlit("!ENTITY");
        reveal_strlit("!ATTLIST");
        reveal_strlit("!NOTATION");
    }
    if is_at(t, i, "?") {
        find_after(t, i + 1, "?>")
    } else if is_at(t, i, "!--") {
        find_after(t, i + 3, "-->")
    } else if is_at(t, i, "!ENTITY") || is_at(t, i, "!ATTLIST") || is_at(t, i, "!NOTATION") {
        let end = find_tag_end(t, i);
        if end < t.len() {
            Some(end + 1)
        } else {
            None
        }
    } else {
        find_after(t, i, ">")
    }
}

fn skip_declarations(t: &Vec<char>, from: usize) -> (r: Option<usize>)
    requires
        from <= t.len(),
    ensures
        match r {
            Some(k) => after_declarations(t@, from as int) == Some(k as int) && from < k <= t.len(),
            None => after_declarations(t@, from as int) is None,
        },
{
    proof {
        reveal_strlit(">");
    }
    let mut i: usize = from;
    while i < t.len()
        invariant
            from <= i <= t.len(),
            ">"@.len() == 1,
            after_declarations(t@, from as int) == after_declarations(t@, i as int),
        decreases t.len() - i,
    {
        if t[i] == ']' {
            return find_after(t, i, ">");
        }
        if t[i] == '<' {
            match skip_declaration(t, i + 1) {
                Some(k) => {
                    i = k;
                },
                None => {
                    return None;
                },
            }
        } else {
            i = i + 1;
        }
    }
    None
}

fn skip_doctype(t: &Vec<char>, from: usize) -> (r: Option<usize>)
    requires
        from <= t.len(),
    ensures
        match r {
            Some(k) => after_doctype(t@, from as int) == Some(k as int) && from < k <= t.len(),
            None => after_doctype(t@, from as int) is None,
        },
{
    let mut i: usize = from;
    while i < t.len()
        invariant
            from <= i <= t.len(),
            after_doctype(t@, from as int) == after_doctype(t@, i as int),
        decreases t.len() - i,
    {
        if t[i] == '>' {
            return Some(i + 1);
        }
        if t[i] == '[' {
            return skip_declarations(t, i + 1);
        }
        if t[i] == '"' || t[i] == '\'' {
            let q = find_char(t, i + 1, t[i]);
            if q >= t.len() {
                return None;
            }
            i = q + 1;
        } else {
            i = i + 1;
        }
    }
    None
}

/// A part of a text.
pub fn part_of(t: &Vec<char>, from: usize, to: usize) -> (r: Vec<char>)
    requires
        from <= to <= t.len(),
    ensures
        r@ == t@.subrange(from as int, to as int),
{
    let mut part: Vec<char> = Vec::new();
    let mut i: usize = from;
    while i < to
        invariant
            from <= i <= to <= t.len(),
            part@ == t@.subrange(from as int, i as int),
        decreases to - i,
    {
        part.push(t[i]);
        i = i + 1;
        assert(part@ =~= t@.subrange(from as int, i as int));
    }
    part
}

fn read_attributes(s: &Vec<char>, from: usize) -> (r: Vec<Attribute>)
    requires
        from <= s.len(),
    ensures
        attribute_views(r@) == attributes_from(s@, from as int),
{
    let mut attributes: Vec<Attribute> = Vec::new();
    let mut i: usize = from;
    assert(attribute_views(attributes@) + attributes_from(s@, i as int) =~= attributes_from(s@, from as int));
    loop
        invariant
            from <= i <= s.len(),
            attribute_views(attributes@) + attributes_from(s@, i as int) == attributes_from(s@, from as int),
        ensures
            attribute_views(attributes@) == attributes_from(s@, from as int),
        decreases s.len() - i,
    {
        let ghost before = attribute_views(attributes@);
        assert(before + Seq::<AttributeV>::empty() =~= before);
        let name = skip_spaces(s, i);
        if name >= s.len() {
            break;
        }
        let end = find_word_end(s, name + 1, true);
        let eq = skip_spaces(s, end);
        if eq >= s.len() || s[eq] != '=' {
            break;
        }
        let open = skip_spaces(s, eq + 1);
        if open >= s.len() || !(s[open] == '"' || s[open] == '\'') {
            break;
        }
        let close = find_char(s, open + 1, s[open]);
        if close >= s.len() {
            break;
        }
        let attribute = Attribute { name: part_of(s, name, end), value: part_of(s, open + 1, close) };
        let ghost seen = attribute@;
        attributes.push(attribute);
        assert(attribute_views(attributes@) =~= before.push(seen));
        assert(attributes_from(s@, i as int) == seq![seen] + attributes_from(s@, close + 1));
        assert(before.push(seen) + attributes_from(s@, close + 1) =~= before + attributes_from(s@, i as int));
        i = close + 1;
    }
    attributes
}

fn read_opening_tag(s: &Vec<char>) -> (r: Markup)
    ensures
        r@ == opening_tag(s@),
{
    let len: usize = s.len();
    let closed = len > 0 && s[len - 1] == '/';
    let inner = part_of(s, 0, if closed { len - 1 } else { len });
    assert(inner@ =~= if closed { s@.drop_last() } else { s@ });
    let end = find_word_end(&inner, 0, false);
    let name = part_of(&inner, 0, end);
    assert(name@ =~= inner@.take(end as int));
    let attributes = read_attributes(&inner, end);
    Markup::Opening { name, attributes, closed }
}

fn read_closing_name(s: &Vec<char>) -> (r: Vec<char>)
    ensures
        r@ == without_end_spaces(s@),
{
    let mut end: usize = s.len();
    assert(s@.take(end as int) =~= s@);
    while end > 0 && (s[end - 1] == ' ' || s[end - 1] == '\t' || s[end - 1] == '\n' || s[end - 1] == '\r')
        invariant
            end <= s.len(),
            without_end_spaces(s@) == without_end_spaces(s@.take(end as int)),
        decreases end,
    {
        assert(s@.take(end as int).drop_last() =~= s@.take(end - 1));
        end = end - 1;
    }
    let name = part_of(s, 0, end);
    assert(name@ =~= s@.take(end as int));
    name
}

/// Reads the markup whose opening bracket stands in a place. Gives the place after it, too.
pub fn read_markup(t: &Vec<char>, i: usize) -> (r: Option<(usize, Markup)>)
    requires
        i < t.len(),
        t@[i as int] == '<',
    ensures
        match r {
            Some((end, markup)) => markup_at(t@, i as int) == Some((end as int, markup@)) && i < end <= t.len(),
            None => markup_at(t@, i as int) is None,
        },
{
    proof {
        reveal_strlit("<!--");
        reveal_strlit("-->");
        reveal_strlit("<![CDATA[");
        reveal_strlit("]]>");
        reveal_strlit("<?");
        reveal_strlit("?>");
        reveal_strlit("</");
    }
    if is_at(t, i, "<!--") {
        match find_after(t, i + 4, "-->") {
            Some(end) => Some((end, Markup::Other)),
            None => None,
        }
    } else if is_at(t, i, "<![CDATA[") {
        match find_after(t, i + 9, "]]>") {
            Some(end) => Some((end, Markup::Other)),
            None => None,
        }
    } else if is_at(t, i, "<!D") || is_at(t, i, "<!d") {
        match skip_doctype(t, i) {
            Some(end) => Some((end, Markup::Other)),
            None => None,
        }
    } else if is_at(t, i, "<!") {
        None
    } else if is_at(t, i, "<?") {
        match find_after(t, i + 1, "?>") {
            Some(end) => Some((end, Markup::Other)),
            None => None,
        }
    } else {
        let end = find_tag_end(t, i);
        if end >= t.len() {
            return None;
        }
        assert(end != i);
        if is_at(t, i, "</") {
            assert(t@.subrange(i as int, i + 2)[1] == t@[i + 1]);
            let name = read_closing_name(&part_of(t, i + 2, end));
            Some((end + 1, Markup::Closing { name }))
        } else {
            Some((end + 1, read_opening_tag(&part_of(t, i + 1, end))))
        }
    }
}

} // verus!
