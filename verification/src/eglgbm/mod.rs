//! Buffer formats and the properties of a graphics display.
use vstd::prelude::*;

pub mod drm;
pub mod egl;
pub mod gbm;

verus! {

/// A graphics API that a context can be made for.
#[derive(Debug, Clone, Copy, PartialEq, Eq, Structural)]
pub enum GraphicsApi {
    OpenGl,
    OpenGlEs,
    OpenVg,
}

/// A DRM pixel format code.
#[derive(Debug, Clone, Copy, PartialEq, Eq, Structural, PartialOrd, Ord, Hash)]
pub struct Fourcc(pub u32);

/// A hexadecimal digit.
pub open spec fn hex_digit(n: u8) -> char {
    if n < 10 {
        (48 + n) as char
    } else {
        (87 + n) as char
    }
}

/// A byte as text. What is not a printable ASCII character, a quote or a backslash is escaped.
pub open spec fn escaped(b: u8) -> Seq<char> {
    if b == 0x09 {
        seq!['\\', 't']
    } else if b == 0x0d {
        seq!['\\', 'r']
    } else if b == 0x0a {
        seq!['\\', 'n']
    } else if b == 0x27 || b == 0x22 || b == 0x5c {
        seq!['\\', b as char]
    } else if 0x20 <= b <= 0x7e {
        seq![b as char]
    } else {
        seq!['\\', 'x', hex_digit((b / 16) as u8), hex_digit((b % 16) as u8)]
    }
}

fn push_escaped(text: &mut Vec<char>, b: u8)
    ensures
        final(text)@ == old(text)@ + escaped(b),
{
    let ghost before = text@;
    if b == 0x09 {
        text.push('\\');
        text.push('t');
    } else if b == 0x0d {
        text.push('\\');
        text.push('r');
    } else if b == 0x0a {
        text.push('\\');
        text.push('n');
    } else if b == 0x27 || b == 0x22 || b == 0x5c {
        text.push('\\');
        text.push(b as char);
    } else if 0x20 <= b && b <= 0x7e {
        text.push(b as char);
    } else {
        text.push('\\');
        text.push('x');
        let hi: u8 = b / 16;
        let lo: u8 = b % 16;
        text.push(if hi < 10 { (48 + hi) as char } else { (87 + hi) as char });
        text.push(if lo < 10 { (48 + lo) as char } else { (87 + lo) as char });
    }
    assert(text@ =~= before + escaped(b));
}

impl Fourcc {
    /// The four characters of the code, from the lowest byte up.
    pub open spec fn code_text(self) -> Seq<char> {
        let n = self.0;
        escaped((n % 0x100) as u8) + escaped((n / 0x100 % 0x100) as u8) + escaped((n / 0x1_0000 % 0x100) as u8) + escaped(
            (n / 0x100_0000) as u8,
        )
    }

    /// The four characters of the code.
    pub fn text(self) -> (r: Vec<char>)
        ensures
            r@ == self.code_text(),
    {
        let n: u32 = self.0;
        let mut r: Vec<char> = Vec::new();
        push_escaped(&mut r, (n % 0x100) as u8);
        push_escaped(&mut r, (n / 0x100 % 0x100) as u8);
        push_escaped(&mut r, (n / 0x1_0000 % 0x100) as u8);
        push_escaped(&mut r, (n / 0x100_0000) as u8);
        assert(r@ =~= self.code_text());
        r
    }
}

/// What can go wrong with a graphics display.
#[derive(Debug, Clone, Copy, PartialEq, Eq)]
pub enum EglError {
    /// The version of EGL is too old.
    OldEgl(u32, u32),
    /// An extension is missing.
    ExtensionUnsupported(&'static str),
    /// A buffer could not be allocated.
    BadGbmAlloc,
    /// A context was to be released that is not the current one.
    NotCurrentContext,
    /// EGL failed with a code.
    Egl(i32),
}

/// The modifiers of one format.
#[derive(Debug)]
pub struct FormatMods {
    pub fourcc: Fourcc,
    pub mods: Vec<u64>,
}

/// What a [`FormatMods`] says.
#[verifier::ext_equal]
pub struct FormatModsV {
    pub fourcc: Fourcc,
    pub mods: Seq<u64>,
}

impl View for FormatMods {
    type V = FormatModsV;

    open spec fn view(&self) -> FormatModsV {
        FormatModsV { fourcc: self.fourcc, mods: self.mods@ }
    }
}

/// Buffer formats, each with its modifiers, in the order in which they were added. No format occurs
/// twice.
#[derive(Debug)]
pub struct FormatTable {
    entries: Vec<FormatMods>,
}

/// What the entries of a table say.
pub open spec fn entry_views(entries: Seq<FormatMods>) -> Seq<FormatModsV> {
    entries.map_values(|e: FormatMods| e@)
}

impl View for FormatTable {
    type V = Seq<FormatModsV>;

    closed spec fn view(&self) -> Seq<FormatModsV> {
        entry_views(self.entries@)
    }
}

/// Whether no format occurs twice.
pub open spec fn table_wf(t: Seq<FormatModsV>) -> bool {
    forall|i: int, j: int|
        0 <= i < t.len() && 0 <= j < t.len() && (#[trigger] t[i]).fourcc == (#[trigger] t[j]).fourcc ==> i == j
}

/// The place of a format in a table, or the length of the table if it is not there.
pub open spec fn format_index(t: Seq<FormatModsV>, fourcc: Fourcc) -> int
    decreases t.len(),
{
    if t.len() == 0 {
        0
    } else if t[0].fourcc == fourcc {
        0
    } else {
        1 + format_index(t.skip(1), fourcc)
    }
}

/// The modifiers of a format, if the table has it.
pub open spec fn modifiers_of(t: Seq<FormatModsV>, fourcc: Fourcc) -> Option<Seq<u64>> {
    let i = format_index(t, fourcc);
    if i < t.len() {
        Some(t[i].mods)
    } else {
        None
    }
}

/// Whether a table has a format with a modifier.
pub open spec fn supports(t: Seq<FormatModsV>, fourcc: Fourcc, modifier: u64) -> bool {
    modifiers_of(t, fourcc) matches Some(mods) && mods.contains(modifier)
}

/// The table with one more modifier for a format.
pub open spec fn modifier_added(t: Seq<FormatModsV>, fourcc: Fourcc, modifier: u64) -> Seq<FormatModsV> {
    let i = format_index(t, fourcc);
    if i < t.len() {
        t.update(i, FormatModsV { fourcc, mods: t[i].mods.push(modifier) })
    } else {
        t.push(FormatModsV { fourcc, mods: seq![modifier] })
    }
}

/// The table with other modifiers for a format.
pub open spec fn format_set(t: Seq<FormatModsV>, fourcc: Fourcc, mods: Seq<u64>) -> Seq<FormatModsV> {
    let i = format_index(t, fourcc);
    if i < t.len() {
        t.update(i, FormatModsV { fourcc, mods })
    } else {
        t.push(FormatModsV { fourcc, mods })
    }
}

/// The place that is found is the place of the format.
pub proof fn lemma_format_index(t: Seq<FormatModsV>, fourcc: Fourcc)
    ensures
        0 <= format_index(t, fourcc) <= t.len(),
        format_index(t, fourcc) < t.len() ==> t[format_index(t, fourcc)].fourcc == fourcc,
        forall|j: int| 0 <= j < format_index(t, fourcc) ==> (#[trigger] t[j]).fourcc != fourcc,
    decreases t.len(),
{
    if t.len() > 0 && t[0].fourcc != fourcc {
        let rest = t.skip(1);
        lemma_format_index(rest, fourcc);
        assert forall|j: int| 0 <= j < format_index(t, fourcc) implies (#[trigger] t[j]).fourcc != fourcc by {
            if j > 0 {
                assert(rest[j - 1] == t[j]);
            }
        }
    }
}

/// A format is found at its place.
proof fn lemma_found_at(t: Seq<FormatModsV>, fourcc: Fourcc, i: int)
    requires
        0 <= i <= t.len(),
        i < t.len() ==> t[i].fourcc == fourcc,
        forall|j: int| 0 <= j < i ==> (#[trigger] t[j]).fourcc != fourcc,
    ensures
        format_index(t, fourcc) == i,
{
    lemma_format_index(t, fourcc);
    let k = format_index(t, fourcc);
    if k < i {
        assert(t[k].fourcc != fourcc);
    }
    if i < k {
        assert(t[i].fourcc != fourcc);
    }
}

/// Adding a modifier to a format adds it to that format and leaves the others as they are.
pub proof fn law_modifier_added(t: Seq<FormatModsV>, fourcc: Fourcc, modifier: u64, other: Fourcc)
    requires
        table_wf(t),
    ensures
        table_wf(modifier_added(t, fourcc, modifier)),
        modifiers_of(modifier_added(t, fourcc, modifier), fourcc) == Some(
            match modifiers_of(t, fourcc) {
                Some(mods) => mods.push(modifier),
                None => seq![modifier],
            },
        ),
        other != fourcc ==> modifiers_of(modifier_added(t, fourcc, modifier), other) == modifiers_of(t, other),
{
    let u = modifier_added(t, fourcc, modifier);
    let i = format_index(t, fourcc);
    lemma_format_index(t, fourcc);
    lemma_format_index(t, other);
    lemma_format_index(u, fourcc);
    assert(forall|j: int| 0 <= j < t.len() ==> (#[trigger] u[j]).fourcc == t[j].fourcc);
    lemma_found_at(u, fourcc, i);
    if other != fourcc {
        let k = format_index(t, other);
        lemma_found_at(u, other, if k < t.len() { k } else { u.len() as int });
    }
}

impl FormatTable {
    /// The table without formats.
    pub fn new() -> (r: Self)
        ensures
            r@ == Seq::<FormatModsV>::empty(),
            table_wf(r@),
    {
        let r = Self { entries: Vec::new() };
        assert(r@ =~= Seq::<FormatModsV>::empty());
        r
    }

    /// The entries in the order in which their formats were added.
    pub fn entries(&self) -> (r: &Vec<FormatMods>)
        ensures
            entry_views(r@) == self@,
    {
        &self.entries
    }

    fn position(&self, fourcc: Fourcc) -> (r: usize)
        ensures
            r == format_index(self@, fourcc),
            r <= self.entries.len(),
    {
        let mut i: usize = 0;
        while i < self.entries.len()
            invariant
                i <= self.entries.len(),
                forall|j: int| 0 <= j < i ==> (#[trigger] self@[j]).fourcc != fourcc,
            decreases self.entries.len() - i,
        {
            assert(self@[i as int] == self.entries@[i as int]@);
            if self.entries[i].fourcc == fourcc {
                proof {
                    lemma_found_at(self@, fourcc, i as int);
                }
                return i;
            }
            i = i + 1;
        }
        proof {
            lemma_found_at(self@, fourcc, i as int);
        }
        i
    }

    /// The modifiers of a format.
    pub fn get(&self, fourcc: Fourcc) -> (r: Option<&Vec<u64>>)
        ensures
            r is Some == modifiers_of(self@, fourcc) is Some,
            r matches Some(mods) ==> Some(mods@) == modifiers_of(self@, fourcc),
    {
        let i = self.position(fourcc);
        if i < self.entries.len() {
            assert(self@[i as int] == self.entries@[i as int]@);
            Some(&self.entries[i].mods)
        } else {
            None
        }
    }

    /// Whether the table has a format with a modifier.
    pub fn is_format_supported(&self, fourcc: Fourcc, modifier: u64) -> (r: bool)
        ensures
            r == supports(self@, fourcc, modifier),
    {
        match self.get(fourcc) {
            None => false,
            Some(mods) => {
                let mut i: usize = 0;
                while i < mods.len()
                    invariant
                        i <= mods.len(),
                        Some(mods@) == modifiers_of(self@, fourcc),
                        forall|j: int| 0 <= j < i ==> mods@[j] != modifier,
                    decreases mods.len() - i,
                {
                    if mods[i] == modifier {
                        return true;
                    }
                    i = i + 1;
                }
                false
            },
        }
    }

    /// Adds a modifier to a format.
    pub fn add_modifier(&mut self, fourcc: Fourcc, modifier: u64)
        requires
            table_wf(old(self)@),
        ensures
            final(self)@ == modifier_added(old(self)@, fourcc, modifier),
            table_wf(final(self)@),
    {
        let ghost t = self@;
        let i = self.position(fourcc);
        proof {
            lemma_format_index(t, fourcc);
            law_modifier_added(t, fourcc, modifier, fourcc);
        }
        if i < self.entries.len() {
            assert(t[i as int] == self.entries@[i as int]@);
            self.entries[i].mods.push(modifier);
        } else {
            let mut mods: Vec<u64> = Vec::new();
            mods.push(modifier);
            assert(mods@ =~= seq![modifier]);
            self.entries.push(FormatMods { fourcc, mods });
        }
        assert(self@ =~= modifier_added(t, fourcc, modifier));
    }

    /// Sets the modifiers of a format.
    pub fn set_format(&mut self, fourcc: Fourcc, mods: Vec<u64>)
        requires
            table_wf(old(self)@),
        ensures
            final(self)@ == format_set(old(self)@, fourcc, mods@),
            table_wf(final(self)@),
    {
        let ghost t = self@;
        let i = self.position(fourcc);
        proof {
            lemma_format_index(t, fourcc);
        }
        if i < self.entries.len() {
            assert(t[i as int] == self.entries@[i as int]@);
            self.entries[i].mods = mods;
        } else {
            self.entries.push(FormatMods { fourcc, mods });
        }
        assert(self@ =~= format_set(t, fourcc, mods@));
        assert(forall|j: int| 0 <= j < t.len() ==> (#[trigger] self@[j]).fourcc == t[j].fourcc);
    }
}

} // verus!
