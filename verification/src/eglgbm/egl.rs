//! The display and the context builder.
use vstd::prelude::*;

use crate::eglgbm::{
    format_set, table_wf, supports, EglError, FormatModsV, FormatTable, Fourcc, GraphicsApi,
};

verus! {

/// What a context is asked to be.
#[derive(Debug, Clone, Copy, PartialEq, Eq, Structural)]
pub struct EglContextBuilder {
    pub api: GraphicsApi,
    pub major_v: u32,
    pub minor_v: u32,
    pub debug: bool,
}

/// A property of a context and its value.
#[derive(Debug, Clone, Copy, PartialEq, Eq, Structural)]
pub enum ContextAttr {
    MajorVersion(u32),
    MinorVersion(u32),
    Debug(bool),
}

impl EglContextBuilder {
    /// A context of version 1.0 without debugging.
    pub fn new(api: GraphicsApi) -> (r: Self)
        ensures
            r == (EglContextBuilder { api, major_v: 1, minor_v: 0, debug: false }),
    {
        Self { api, major_v: 1, minor_v: 0, debug: false }
    }

    /// Sets the required version of the API.
    pub fn version(self, major: u32, minor: u32) -> (r: Self)
        ensures
            r == (EglContextBuilder { major_v: major, minor_v: minor, ..self }),
    {
        Self { api: self.api, major_v: major, minor_v: minor, debug: self.debug }
    }

    /// Enables or disables debugging.
    pub fn debug(self, enable: bool) -> (r: Self)
        ensures
            r == (EglContextBuilder { debug: enable, ..self }),
    {
        Self { api: self.api, major_v: self.major_v, minor_v: self.minor_v, debug: enable }
    }

    /// The properties of the context that is asked for.
    pub fn context_attrs(&self) -> (r: Vec<ContextAttr>)
        ensures
            r@ == seq![
                ContextAttr::MajorVersion(self.major_v),
                ContextAttr::MinorVersion(self.minor_v),
                ContextAttr::Debug(self.debug),
            ],
    {
        let mut attrs: Vec<ContextAttr> = Vec::new();
        attrs.push(ContextAttr::MajorVersion(self.major_v));
        attrs.push(ContextAttr::MinorVersion(self.minor_v));
        attrs.push(ContextAttr::Debug(self.debug));
        attrs
    }
}

/// The words that a space separates. There is one more of them than spaces.
pub open spec fn words(s: Seq<u8>) -> Seq<Seq<u8>>
    decreases s.len(),
{
    if s.len() == 0 {
        seq![Seq::empty()]
    } else {
        let before = words(s.drop_last());
        if s.last() == 0x20 {
            before.push(Seq::empty())
        } else {
            before.update(before.len() - 1, before.last().push(s.last()))
        }
    }
}

/// The names of the extensions of a display.
#[derive(Debug)]
pub struct EglExtensions {
    names: Vec<Vec<u8>>,
}

/// The bytes of several names.
pub open spec fn name_views(names: Seq<Vec<u8>>) -> Seq<Seq<u8>> {
    names.map_values(|n: Vec<u8>| n@)
}

impl View for EglExtensions {
    type V = Seq<Seq<u8>>;

    closed spec fn view(&self) -> Seq<Seq<u8>> {
        name_views(self.names@)
    }
}

fn same_bytes(a: &Vec<u8>, b: &[u8]) -> (r: bool)
    ensures
        r == (a@ == b@),
{
    if a.len() != b.len() {
        return false;
    }
    let mut i: usize = 0;
    while i < a.len()
        invariant
            i <= a.len(),
            a@.len() == b@.len(),
            forall|j: int| 0 <= j < i ==> a@[j] == b@[j],
        decreases a.len() - i,
    {
        if a[i] != b[i] {
            return false;
        }
        i = i + 1;
    }
    assert(a@ =~= b@);
    true
}

impl EglExtensions {
    /// Reads the names out of a text in which spaces separate them.
    pub fn parse(text: &[u8]) -> (r: Self)
        ensures
            r@ == words(text@),
    {
        let mut names: Vec<Vec<u8>> = Vec::new();
        let mut word: Vec<u8> = Vec::new();
        let mut i: usize = 0;
        assert(text@.take(0) =~= Seq::<u8>::empty());
        assert(name_views(names@).push(word@) =~= words(text@.take(0)));
        while i < text.len()
            invariant
                i <= text.len(),
                name_views(names@).push(word@) == words(text@.take(i as int)),
            decreases text.len() - i,
        {
            let ghost before = name_views(names@);
            let ghost w = word@;
            assert(text@.take(i + 1).drop_last() =~= text@.take(i as int));
            let b: u8 = text[i];
            if b == 0x20 {
                names.push(word);
                word = Vec::new();
                assert(name_views(names@) =~= before.push(w));
                assert(word@ =~= Seq::<u8>::empty());
            } else {
                word.push(b);
            }
            assert(name_views(names@).push(word@) =~= words(text@.take(i + 1)));
            i = i + 1;
        }
        assert(text@.take(i as int) =~= text@);
        let ghost before = name_views(names@);
        let ghost w = word@;
        names.push(word);
        assert(name_views(names@) =~= before.push(w));
        Self { names }
    }

    /// Whether an extension is supported.
    pub fn contains(&self, ext: &str) -> (r: bool)
        ensures
            r == self@.contains(vstd::utf8::encode_utf8(ext@)),
    {
        let bytes = ext.as_bytes();
        let ghost name = vstd::utf8::encode_utf8(ext@);
        let mut i: usize = 0;
        while i < self.names.len()
            invariant
                i <= self.names.len(),
                bytes@ == name,
                name == vstd::utf8::encode_utf8(ext@),
                forall|j: int| 0 <= j < i ==> (#[trigger] self@[j]) != name,
            decreases self.names.len() - i,
        {
            assert(self@[i as int] == self.names@[i as int]@);
            if same_bytes(&self.names[i], bytes) {
                return true;
            }
            i = i + 1;
        }
        false
    }

    /// Fails unless an extension is supported.
    pub fn require(&self, ext: &'static str) -> (r: Result<(), EglError>)
        ensures
            r == (if self@.contains(vstd::utf8::encode_utf8(ext@)) {
                Ok::<(), EglError>(())
            } else {
                Err::<(), EglError>(EglError::ExtensionUnsupported(ext))
            }),
    {
        if self.contains(ext) {
            Ok(())
        } else {
            Err(EglError::ExtensionUnsupported(ext))
        }
    }
}

/// A format that a display can import, whether buffers in it can be rendered to, and its modifiers.
#[derive(Debug)]
pub struct QueriedFormat {
    pub fourcc: Fourcc,
    pub renderable: bool,
    pub mods: Vec<u64>,
}

/// The formats among the first queried ones that can be rendered to.
pub open spec fn formats_collected(queried: Seq<QueriedFormat>) -> Seq<FormatModsV>
    decreases queried.len(),
{
    if queried.len() == 0 {
        Seq::empty()
    } else {
        let before = formats_collected(queried.drop_last());
        if queried.last().renderable {
            format_set(before, queried.last().fourcc, queried.last().mods@)
        } else {
            before
        }
    }
}

/// Collects the formats that can be rendered to.
pub fn get_supported_formats(queried: &Vec<QueriedFormat>) -> (r: FormatTable)
    ensures
        r@ == formats_collected(queried@),
        table_wf(r@),
{
    let mut table = FormatTable::new();
    let mut i: usize = 0;
    assert(queried@.take(0) =~= Seq::<QueriedFormat>::empty());
    while i < queried.len()
        invariant
            i <= queried.len(),
            table_wf(table@),
            table@ == formats_collected(queried@.take(i as int)),
        decreases queried.len() - i,
    {
        assert(queried@.take(i + 1).drop_last() =~= queried@.take(i as int));
        if queried[i].renderable {
            let mods = copy_modifiers(&queried[i].mods);
            table.set_format(queried[i].fourcc, mods);
        }
        i = i + 1;
    }
    assert(queried@.take(i as int) =~= queried@);
    table
}

fn copy_modifiers(mods: &Vec<u64>) -> (r: Vec<u64>)
    ensures
        r@ == mods@,
{
    let mut copy: Vec<u64> = Vec::new();
    let mut i: usize = 0;
    while i < mods.len()
        invariant
            i <= mods.len(),
            copy@ == mods@.take(i as int),
        decreases mods.len() - i,
    {
        copy.push(mods[i]);
        assert(copy@ =~= mods@.take(i + 1));
        i = i + 1;
    }
    assert(copy@ =~= mods@);
    copy
}

/// Whether an extension is among those with the given names.
pub open spec fn names_one(extensions: Seq<Seq<u8>>, name: Seq<char>) -> bool {
    extensions.contains(vstd::utf8::encode_utf8(name))
}

/// Whether a version of EGL is new enough.
pub open spec fn new_enough(major: u32, minor: u32) -> bool {
    major > 1 || minor >= 5
}

/// What stands in the way of using a display, if anything does: an old version, or the first of the
/// extensions that is missing.
pub open spec fn display_fault(major: u32, minor: u32, extensions: Seq<Seq<u8>>) -> Option<EglError> {
    if !new_enough(major, minor) {
        Some(EglError::OldEgl(major, minor))
    } else if !names_one(extensions, "EGL_EXT_image_dma_buf_import_modifiers"@) {
        Some(EglError::ExtensionUnsupported("EGL_EXT_image_dma_buf_import_modifiers"))
    } else if !names_one(extensions, "EGL_KHR_no_config_context"@) {
        Some(EglError::ExtensionUnsupported("EGL_KHR_no_config_context"))
    } else if !names_one(extensions, "EGL_KHR_surfaceless_context"@) {
        Some(EglError::ExtensionUnsupported("EGL_KHR_surfaceless_context"))
    } else {
        None
    }
}

/// What is known of a display.
#[derive(Debug)]
pub struct EglDisplay {
    major_version: u32,
    minor_version: u32,
    extensions: EglExtensions,
    supported_formats: FormatTable,
}

/// What an [`EglDisplay`] says.
#[verifier::ext_equal]
pub struct EglDisplayV {
    pub major_version: u32,
    pub minor_version: u32,
    pub extensions: Seq<Seq<u8>>,
    pub supported_formats: Seq<FormatModsV>,
}

impl View for EglDisplay {
    type V = EglDisplayV;

    closed spec fn view(&self) -> EglDisplayV {
        EglDisplayV {
            major_version: self.major_version,
            minor_version: self.minor_version,
            extensions: self.extensions@,
            supported_formats: self.supported_formats@,
        }
    }
}

impl EglDisplay {
    /// A display, unless its version is too old or it lacks an extension.
    pub fn new(major: u32, minor: u32, extensions: EglExtensions, supported_formats: FormatTable) -> (r: Result<
        Self,
        EglError,
    >)
        ensures
            match display_fault(major, minor, extensions@) {
                Some(e) => r matches Err(f) && f == e,
                None => r matches Ok(d) && d@ == (EglDisplayV {
                    major_version: major,
                    minor_version: minor,
                    extensions: extensions@,
                    supported_formats: supported_formats@,
                }),
            },
    {
        if major <= 1 && minor < 5 {
            return Err(EglError::OldEgl(major, minor));
        }
        if let Err(e) = extensions.require("EGL_EXT_image_dma_buf_import_modifiers") {
            return Err(e);
        }
        if let Err(e) = extensions.require("EGL_KHR_no_config_context") {
            return Err(e);
        }
        if let Err(e) = extensions.require("EGL_KHR_surfaceless_context") {
            return Err(e);
        }
        Ok(Self { major_version: major, minor_version: minor, extensions, supported_formats })
    }

    /// Major EGL version.
    pub fn major_version(&self) -> (r: u32)
        ensures
            r == self@.major_version,
    {
        self.major_version
    }

    /// Minor EGL version.
    pub fn minor_version(&self) -> (r: u32)
        ensures
            r == self@.minor_version,
    {
        self.minor_version
    }

    /// The extensions that the display supports.
    pub fn extensions(&self) -> (r: &EglExtensions)
        ensures
            r@ == self@.extensions,
    {
        &self.extensions
    }

    /// The buffer formats that the display supports.
    pub fn supported_formats(&self) -> (r: &FormatTable)
        ensures
            r@ == self@.supported_formats,
    {
        &self.supported_formats
    }

    /// Whether a format is supported with a modifier.
    pub fn is_format_supported(&self, fourcc: Fourcc, modifier: u64) -> (r: bool)
        ensures
            r == supports(self@.supported_formats, fourcc, modifier),
    {
        self.supported_formats.is_format_supported(fourcc, modifier)
    }
}

} // verus!
