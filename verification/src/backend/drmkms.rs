//! The decisions of the backend that drives a screen by itself.
use vstd::prelude::*;

use std::collections::VecDeque;

use crate::backend::{BackendEvent, InputTimestamp, KeyboardId, PointerId};
use crate::eglgbm::{law_modifier_added, modifier_added, modifiers_of, supports, table_wf, FormatModsV, FormatTable, Fourcc};
use crate::libseat;
use crate::protocol::{Fixed, PressState};

verus! {

/// The order of the bytes of a number.
#[derive(Debug, Clone, Copy, PartialEq, Eq, Structural)]
pub enum ByteOrder {
    Little,
    Big,
}

/// The number that two bytes or halves make, where `unit` is one more than the greatest half.
pub open spec fn of_halves(order: ByteOrder, first: int, second: int, unit: int) -> int {
    match order {
        ByteOrder::Little => first + unit * second,
        ByteOrder::Big => unit * first + second,
    }
}

/// The number that four bytes make.
pub open spec fn u32_at(order: ByteOrder, blob: Seq<u8>, at: int) -> int {
    of_halves(
        order,
        of_halves(order, blob[at] as int, blob[at + 1] as int, 0x100),
        of_halves(order, blob[at + 2] as int, blob[at + 3] as int, 0x100),
        0x1_0000,
    )
}

/// The number that eight bytes make.
pub open spec fn u64_at(order: ByteOrder, blob: Seq<u8>, at: int) -> int {
    of_halves(order, u32_at(order, blob, at), u32_at(order, blob, at + 4), 0x1_0000_0000)
}

/// Reads a number of four bytes.
pub fn read_u32(order: ByteOrder, blob: &[u8], at: usize) -> (r: u32)
    requires
        at + 4 <= blob@.len(),
    ensures
        r == u32_at(order, blob@, at as int),
{
    let a: u32 = blob[at] as u32;
    let b: u32 = blob[at + 1] as u32;
    let c: u32 = blob[at + 2] as u32;
    let d: u32 = blob[at + 3] as u32;
    match order {
        ByteOrder::Little => a + 0x100 * b + 0x1_0000 * (c + 0x100 * d),
        ByteOrder::Big => 0x1_0000 * (0x100 * a + b) + (0x100 * c + d),
    }
}

/// Reads a number of eight bytes.
pub fn read_u64(order: ByteOrder, blob: &[u8], at: usize) -> (r: u64)
    requires
        at + 8 <= blob@.len(),
    ensures
        r == u64_at(order, blob@, at as int),
{
    let len: usize = blob.len();
    assert(at + 8 <= len);
    let first: u64 = read_u32(order, blob, at) as u64;
    let second: u64 = read_u32(order, blob, at + 4) as u64;
    match order {
        ByteOrder::Little => first + 0x1_0000_0000 * second,
        ByteOrder::Big => 0x1_0000_0000 * first + second,
    }
}

/// The head of a list of formats and modifiers: how many there are of each, and where they begin.
#[derive(Debug, Clone, Copy, PartialEq, Eq, Structural)]
pub struct BlobHead {
    pub count_formats: u32,
    pub formats_offset: u32,
    pub count_modifiers: u32,
    pub modifiers_offset: u32,
}

/// The head of a list of formats and modifiers.
pub open spec fn blob_head(order: ByteOrder, blob: Seq<u8>) -> BlobHead {
    BlobHead {
        count_formats: u32_at(order, blob, 8) as u32,
        formats_offset: u32_at(order, blob, 12) as u32,
        count_modifiers: u32_at(order, blob, 16) as u32,
        modifiers_offset: u32_at(order, blob, 20) as u32,
    }
}

/// A modifier, and the formats that it goes with: bit `i` of the mask stands for the format
/// `i + offset`.
#[derive(Debug, Clone, Copy, PartialEq, Eq, Structural)]
pub struct BlobModifier {
    pub mask: u64,
    pub offset: u32,
    pub modifier: u64,
}

/// The modifier at a place of the list of modifiers.
pub open spec fn blob_modifier(order: ByteOrder, blob: Seq<u8>, head: BlobHead, k: int) -> BlobModifier {
    let at = head.modifiers_offset + k * 24;
    BlobModifier {
        mask: u64_at(order, blob, at) as u64,
        offset: u32_at(order, blob, at + 8) as u32,
        modifier: u64_at(order, blob, at + 16) as u64,
    }
}

/// The format at a place of the list of formats.
pub open spec fn blob_format(order: ByteOrder, blob: Seq<u8>, head: BlobHead, k: int) -> Fourcc {
    Fourcc(u32_at(order, blob, head.formats_offset + k * 4) as u32)
}

/// Whether a modifier goes with the format of a bit.
pub open spec fn bit_set(mask: u64, bit: int) -> bool {
    mask & (1u64 << (bit as u64)) != 0
}

/// Whether all formats that a modifier goes with are in the list.
pub open spec fn modifier_fits(m: BlobModifier, count_formats: u32) -> bool {
    forall|i: int| 0 <= i < 64 && #[trigger] bit_set(m.mask, i) ==> i + m.offset < count_formats
}

/// Whether the list holds all that its head says, and no modifier goes with a format that is not there.
pub open spec fn blob_sound(order: ByteOrder, blob: Seq<u8>) -> bool {
    let head = blob_head(order, blob);
    &&& blob.len() >= 24
    &&& head.count_formats > 0 ==> head.formats_offset + head.count_formats * 4 <= blob.len()
    &&& head.count_modifiers > 0 ==> head.modifiers_offset + head.count_modifiers * 24 <= blob.len()
    &&& forall|k: int|
        0 <= k < head.count_modifiers ==> modifier_fits(
            #[trigger] blob_modifier(order, blob, head, k),
            head.count_formats,
        )
}

/// A table after a modifier was added to the formats of its first `n` bits.
pub open spec fn bits_added(
    t: Seq<FormatModsV>,
    order: ByteOrder,
    blob: Seq<u8>,
    head: BlobHead,
    m: BlobModifier,
    n: nat,
) -> Seq<FormatModsV>
    decreases n,
{
    if n == 0 {
        t
    } else {
        let bit = n - 1;
        let before = bits_added(t, order, blob, head, m, bit as nat);
        if bit_set(m.mask, bit) {
            modifier_added(before, blob_format(order, blob, head, bit + m.offset), m.modifier)
        } else {
            before
        }
    }
}

/// The table that the first modifiers of a list make.
pub open spec fn blob_table(order: ByteOrder, blob: Seq<u8>, n: nat) -> Seq<FormatModsV>
    decreases n,
{
    if n == 0 {
        Seq::empty()
    } else {
        let head = blob_head(order, blob);
        bits_added(
            blob_table(order, blob, (n - 1) as nat),
            order,
            blob,
            head,
            blob_modifier(order, blob, head, n - 1),
            64,
        )
    }
}

/// Whether one of the first `n` bits of a modifier stands for a format.
pub open spec fn goes_with(order: ByteOrder, blob: Seq<u8>, head: BlobHead, m: BlobModifier, n: int, f: Fourcc) -> bool {
    exists|i: int| 0 <= i < n && #[trigger] bit_set(m.mask, i) && blob_format(order, blob, head, i + m.offset) == f
}

/// Whether one of the first `n` modifiers of a list is `x` and goes with a format.
pub open spec fn listed(order: ByteOrder, blob: Seq<u8>, n: int, f: Fourcc, x: u64) -> bool {
    let head = blob_head(order, blob);
    exists|k: int|
        0 <= k < n && (#[trigger] blob_modifier(order, blob, head, k)).modifier == x && goes_with(
            order,
            blob,
            head,
            blob_modifier(order, blob, head, k),
            64,
            f,
        )
}

proof fn lemma_bits_added(
    t: Seq<FormatModsV>,
    order: ByteOrder,
    blob: Seq<u8>,
    head: BlobHead,
    m: BlobModifier,
    n: nat,
    f: Fourcc,
    x: u64,
)
    requires
        table_wf(t),
    ensures
        table_wf(bits_added(t, order, blob, head, m, n)),
        supports(bits_added(t, order, blob, head, m, n), f, x) == (supports(t, f, x) || (m.modifier == x && goes_with(
            order,
            blob,
            head,
            m,
            n as int,
            f,
        ))),
    decreases n,
{
    if n > 0 {
        let bit = n - 1;
        let before = bits_added(t, order, blob, head, m, bit as nat);
        lemma_bits_added(t, order, blob, head, m, bit as nat, f, x);
        let g = blob_format(order, blob, head, bit + m.offset);
        law_modifier_added(before, g, m.modifier, f);
        if bit_set(m.mask, bit) {
            let after = modifier_added(before, g, m.modifier);
            if g == f {
                let old_mods = match modifiers_of(before, f) {
                    Some(mods) => mods,
                    None => Seq::empty(),
                };
                let mods = modifiers_of(after, f)->0;
                assert(mods =~= old_mods.push(m.modifier));
                assert(mods.last() == m.modifier);
                if old_mods.contains(x) {
                    let j = choose|j: int| 0 <= j < old_mods.len() && old_mods[j] == x;
                    assert(mods[j] == x);
                }
                if mods.contains(x) && x != m.modifier {
                    let j = choose|j: int| 0 <= j < mods.len() && mods[j] == x;
                    assert(old_mods[j] == x);
                }
                if m.modifier == x {
                    assert(goes_with(order, blob, head, m, n as int, f));
                }
            }
        }
        if goes_with(order, blob, head, m, n as int, f) && !goes_with(order, blob, head, m, bit, f) {
            let i = choose|i: int|
                0 <= i < n && #[trigger] bit_set(m.mask, i) && blob_format(order, blob, head, i + m.offset) == f;
            assert(i == bit);
        }
    }
}

/// A table that was read has exactly the formats and modifiers that the list pairs.
pub proof fn law_blob_table(order: ByteOrder, blob: Seq<u8>, n: nat, f: Fourcc, x: u64)
    ensures
        table_wf(blob_table(order, blob, n)),
        supports(blob_table(order, blob, n), f, x) == listed(order, blob, n as int, f, x),
    decreases n,
{
    if n > 0 {
        let head = blob_head(order, blob);
        let m = blob_modifier(order, blob, head, n - 1);
        law_blob_table(order, blob, (n - 1) as nat, f, x);
        lemma_bits_added(blob_table(order, blob, (n - 1) as nat), order, blob, head, m, 64, f, x);
        if listed(order, blob, n as int, f, x) && !listed(order, blob, n - 1, f, x) {
            let k = choose|k: int|
                0 <= k < n && (#[trigger] blob_modifier(order, blob, head, k)).modifier == x && goes_with(
                    order,
                    blob,
                    head,
                    blob_modifier(order, blob, head, k),
                    64,
                    f,
                );
            assert(k == n - 1);
        }
    }
}

/// A modifier, once for each of its first `n` bits that stands for a format.
pub open spec fn modifier_repeated(
    order: ByteOrder,
    blob: Seq<u8>,
    head: BlobHead,
    m: BlobModifier,
    n: nat,
    f: Fourcc,
) -> Seq<u64>
    decreases n,
{
    if n == 0 {
        Seq::empty()
    } else {
        let bit = n - 1;
        let before = modifier_repeated(order, blob, head, m, bit as nat, f);
        if bit_set(m.mask, bit) && blob_format(order, blob, head, bit + m.offset) == f {
            before.push(m.modifier)
        } else {
            before
        }
    }
}

/// The first `n` modifiers of a list, each as often as it goes with a format.
pub open spec fn listed_modifiers(order: ByteOrder, blob: Seq<u8>, n: nat, f: Fourcc) -> Seq<u64>
    decreases n,
{
    if n == 0 {
        Seq::empty()
    } else {
        let head = blob_head(order, blob);
        listed_modifiers(order, blob, (n - 1) as nat, f) + modifier_repeated(
            order,
            blob,
            head,
            blob_modifier(order, blob, head, n - 1),
            64,
            f,
        )
    }
}

/// The modifiers of a format in a table, without any where the table lacks the format.
pub open spec fn all_modifiers(t: Seq<FormatModsV>, f: Fourcc) -> Seq<u64> {
    match modifiers_of(t, f) {
        Some(mods) => mods,
        None => Seq::empty(),
    }
}

proof fn lemma_modifier_repeated(
    t: Seq<FormatModsV>,
    order: ByteOrder,
    blob: Seq<u8>,
    head: BlobHead,
    m: BlobModifier,
    n: nat,
    f: Fourcc,
)
    requires
        table_wf(t),
    ensures
        table_wf(bits_added(t, order, blob, head, m, n)),
        all_modifiers(bits_added(t, order, blob, head, m, n), f) == all_modifiers(t, f) + modifier_repeated(
            order,
            blob,
            head,
            m,
            n,
            f,
        ),
        modifiers_of(t, f) != Some(Seq::<u64>::empty()) ==> modifiers_of(
            bits_added(t, order, blob, head, m, n),
            f,
        ) != Some(Seq::<u64>::empty()),
    decreases n,
{
    if n == 0 {
        assert(all_modifiers(t, f) + Seq::<u64>::empty() =~= all_modifiers(t, f));
    } else {
        let bit = n - 1;
        let before = bits_added(t, order, blob, head, m, bit as nat);
        lemma_modifier_repeated(t, order, blob, head, m, bit as nat, f);
        let g = blob_format(order, blob, head, bit + m.offset);
        law_modifier_added(before, g, m.modifier, f);
        if bit_set(m.mask, bit) && g == f {
            let after = modifier_added(before, g, m.modifier);
            assert(all_modifiers(after, f) =~= all_modifiers(before, f).push(m.modifier));
            assert(all_modifiers(after, f).len() > 0);
            let rep = modifier_repeated(order, blob, head, m, bit as nat, f);
            assert(all_modifiers(t, f) + rep.push(m.modifier) =~= (all_modifiers(t, f) + rep).push(m.modifier));
        }
    }
}

/// A table that was read gives each format its modifiers in the order of the list, each as often as
/// the list pairs the two, and has no format without a modifier.
pub proof fn law_blob_modifiers(order: ByteOrder, blob: Seq<u8>, n: nat, f: Fourcc)
    ensures
        modifiers_of(blob_table(order, blob, n), f) == (if listed_modifiers(order, blob, n, f).len() == 0 {
            None::<Seq<u64>>
        } else {
            Some(listed_modifiers(order, blob, n, f))
        }),
    decreases n,
{
    if n > 0 {
        let head = blob_head(order, blob);
        let m = blob_modifier(order, blob, head, n - 1);
        let t = blob_table(order, blob, (n - 1) as nat);
        law_blob_modifiers(order, blob, (n - 1) as nat, f);
        law_blob_table(order, blob, (n - 1) as nat, f, 0);
        lemma_modifier_repeated(t, order, blob, head, m, 64, f);
        let l = listed_modifiers(order, blob, (n - 1) as nat, f);
        assert(all_modifiers(t, f) =~= l);
        let u = blob_table(order, blob, n);
        if modifiers_of(u, f) is Some && listed_modifiers(order, blob, n, f).len() == 0 {
            assert(modifiers_of(u, f)->0 =~= Seq::<u64>::empty());
        }
    }
}

/// Reads the formats and modifiers of a plane. There is no table if the list does not hold all that
/// its head says, or a modifier goes with a format that is not there.
pub fn parse_drm_format_modifier_blob(order: ByteOrder, blob: &[u8]) -> (r: Option<FormatTable>)
    ensures
        r is Some == blob_sound(order, blob@),
        r matches Some(t) ==> {
            &&& t@ == blob_table(order, blob@, blob_head(order, blob@).count_modifiers as nat)
            &&& table_wf(t@)
        },
{
    if blob.len() < 24 {
        return None;
    }
    let head = BlobHead {
        count_formats: read_u32(order, blob, 8),
        formats_offset: read_u32(order, blob, 12),
        count_modifiers: read_u32(order, blob, 16),
        modifiers_offset: read_u32(order, blob, 20),
    };
    assert(head == blob_head(order, blob@));
    let len: u64 = blob.len() as u64;
    if head.count_formats > 0 && head.formats_offset as u64 + head.count_formats as u64 * 4 > len {
        return None;
    }
    if head.count_modifiers > 0 && head.modifiers_offset as u64 + head.count_modifiers as u64 * 24 > len {
        return None;
    }
    let mut table = FormatTable::new();
    let mut k: u32 = 0;
    while k < head.count_modifiers
        invariant
            k <= head.count_modifiers,
            head == blob_head(order, blob@),
            24 <= blob@.len() <= usize::MAX,
            head.count_formats > 0 ==> head.formats_offset + head.count_formats * 4 <= blob@.len(),
            head.count_modifiers > 0 ==> head.modifiers_offset + head.count_modifiers * 24 <= blob@.len(),
            forall|j: int|
                0 <= j < k ==> modifier_fits(#[trigger] blob_modifier(order, blob@, head, j), head.count_formats),
            table_wf(table@),
            table@ == blob_table(order, blob@, k as nat),
        decreases head.count_modifiers - k,
    {
        let at: usize = head.modifiers_offset as usize + k as usize * 24;
        let m = BlobModifier {
            mask: read_u64(order, blob, at),
            offset: read_u32(order, blob, at + 8),
            modifier: read_u64(order, blob, at + 16),
        };
        assert(m == blob_modifier(order, blob@, head, k as int));
        let ghost start = table@;
        let mut i: u32 = 0;
        while i < 64
            invariant
                i <= 64,
                head == blob_head(order, blob@),
                k < head.count_modifiers,
                m == blob_modifier(order, blob@, head, k as int),
                blob@.len() <= usize::MAX,
                head.count_formats > 0 ==> head.formats_offset + head.count_formats * 4 <= blob@.len(),
                forall|j: int| 0 <= j < i && #[trigger] bit_set(m.mask, j) ==> j + m.offset < head.count_formats,
                table_wf(table@),
                table@ == bits_added(start, order, blob@, head, m, i as nat),
            decreases 64 - i,
        {
            assert(bit_set(m.mask, i as int) == (m.mask & (1u64 << (i as u64)) != 0));
            if m.mask & (1u64 << (i as u64)) != 0 {
                let place: u64 = i as u64 + m.offset as u64;
                if place >= head.count_formats as u64 {
                    assert(!modifier_fits(m, head.count_formats));
                    return None;
                }
                let format = Fourcc(read_u32(order, blob, head.formats_offset as usize + place as usize * 4));
                table.add_modifier(format, m.modifier);
            }
            i = i + 1;
        }
        k = k + 1;
    }
    Some(table)
}

/// The last connector that a screen is connected to.
pub fn choose_connector(connected: &Vec<bool>) -> (r: Option<usize>)
    ensures
        match r {
            Some(i) => {
                &&& i < connected@.len()
                &&& connected@[i as int]
                &&& forall|j: int| i < j < connected@.len() ==> !#[trigger] connected@[j]
            },
            None => forall|j: int| 0 <= j < connected@.len() ==> !#[trigger] connected@[j],
        },
{
    let mut i: usize = connected.len();
    while i > 0
        invariant
            i <= connected.len(),
            forall|j: int| i <= j < connected@.len() ==> !#[trigger] connected@[j],
        decreases i,
    {
        i = i - 1;
        if connected[i] {
            return Some(i);
        }
    }
    None
}

/// The first primary plane, or the first plane if none is primary.
pub fn choose_plane(primary: &Vec<bool>) -> (r: usize)
    requires
        primary.len() > 0,
    ensures
        r < primary@.len(),
        if exists|j: int| 0 <= j < primary@.len() && #[trigger] primary@[j] {
            primary@[r as int] && forall|j: int| 0 <= j < r ==> !#[trigger] primary@[j]
        } else {
            r == 0
        },
{
    let mut i: usize = 0;
    while i < primary.len()
        invariant
            i <= primary.len(),
            forall|j: int| 0 <= j < i ==> !#[trigger] primary@[j],
        decreases primary.len() - i,
    {
        if primary[i] {
            return i;
        }
        i = i + 1;
    }
    0
}

/// What a property belongs to.
#[derive(Debug, Clone, Copy, PartialEq, Eq, Structural)]
pub enum DrmObject {
    Connector,
    Crtc,
    Plane,
}

/// The value of a property.
#[derive(Debug, Clone, Copy, PartialEq, Eq, Structural)]
pub enum DrmValue {
    /// The chosen controller.
    Crtc,
    /// The chosen mode.
    Mode,
    /// One of the two buffers of the screen.
    Framebuffer(usize),
    Boolean(bool),
    Unsigned(u64),
    Signed(i64),
    /// Nothing.
    Off,
}

/// The setting of one property.
#[derive(Debug, Clone, Copy, PartialEq, Eq)]
pub struct DrmSetting {
    pub object: DrmObject,
    pub property: &'static str,
    pub value: DrmValue,
}

/// The settings that show a buffer on a screen of a size, in pixels. The part of the buffer that is
/// shown is given in units of 1/65536 pixel.
pub open spec fn mode_settings(width: u16, height: u16, fb: usize) -> Seq<DrmSetting> {
    seq![
        DrmSetting { object: DrmObject::Connector, property: "CRTC_ID", value: DrmValue::Crtc },
        DrmSetting { object: DrmObject::Crtc, property: "MODE_ID", value: DrmValue::Mode },
        DrmSetting { object: DrmObject::Crtc, property: "ACTIVE", value: DrmValue::Boolean(true) },
        DrmSetting { object: DrmObject::Plane, property: "FB_ID", value: DrmValue::Framebuffer(fb) },
        DrmSetting { object: DrmObject::Plane, property: "CRTC_ID", value: DrmValue::Crtc },
        DrmSetting { object: DrmObject::Plane, property: "SRC_X", value: DrmValue::Unsigned(0) },
        DrmSetting { object: DrmObject::Plane, property: "SRC_Y", value: DrmValue::Unsigned(0) },
        DrmSetting { object: DrmObject::Plane, property: "SRC_W", value: DrmValue::Unsigned((width * 65536) as u64) },
        DrmSetting { object: DrmObject::Plane, property: "SRC_H", value: DrmValue::Unsigned((height * 65536) as u64) },
        DrmSetting { object: DrmObject::Plane, property: "CRTC_X", value: DrmValue::Signed(0) },
        DrmSetting { object: DrmObject::Plane, property: "CRTC_Y", value: DrmValue::Signed(0) },
        DrmSetting { object: DrmObject::Plane, property: "CRTC_W", value: DrmValue::Unsigned(width as u64) },
        DrmSetting { object: DrmObject::Plane, property: "CRTC_H", value: DrmValue::Unsigned(height as u64) },
    ]
}

/// The settings that show a buffer on a screen of a size.
pub fn show_mode(width: u16, height: u16, fb: usize) -> (r: Vec<DrmSetting>)
    ensures
        r@ == mode_settings(width, height, fb),
{
    let mut r: Vec<DrmSetting> = Vec::new();
    r.push(DrmSetting { object: DrmObject::Connector, property: "CRTC_ID", value: DrmValue::Crtc });
    r.push(DrmSetting { object: DrmObject::Crtc, property: "MODE_ID", value: DrmValue::Mode });
    r.push(DrmSetting { object: DrmObject::Crtc, property: "ACTIVE", value: DrmValue::Boolean(true) });
    r.push(DrmSetting { object: DrmObject::Plane, property: "FB_ID", value: DrmValue::Framebuffer(fb) });
    r.push(DrmSetting { object: DrmObject::Plane, property: "CRTC_ID", value: DrmValue::Crtc });
    r.push(DrmSetting { object: DrmObject::Plane, property: "SRC_X", value: DrmValue::Unsigned(0) });
    r.push(DrmSetting { object: DrmObject::Plane, property: "SRC_Y", value: DrmValue::Unsigned(0) });
    r.push(
        DrmSetting { object: DrmObject::Plane, property: "SRC_W", value: DrmValue::Unsigned(width as u64 * 65536) },
    );
    r.push(
        DrmSetting { object: DrmObject::Plane, property: "SRC_H", value: DrmValue::Unsigned(height as u64 * 65536) },
    );
    r.push(DrmSetting { object: DrmObject::Plane, property: "CRTC_X", value: DrmValue::Signed(0) });
    r.push(DrmSetting { object: DrmObject::Plane, property: "CRTC_Y", value: DrmValue::Signed(0) });
    r.push(DrmSetting { object: DrmObject::Plane, property: "CRTC_W", value: DrmValue::Unsigned(width as u64) });
    r.push(DrmSetting { object: DrmObject::Plane, property: "CRTC_H", value: DrmValue::Unsigned(height as u64) });
    assert(r@ =~= mode_settings(width, height, fb));
    r
}

/// The settings that turn an object off.
pub open spec fn off_settings(object: DrmObject) -> Seq<DrmSetting> {
    match object {
        DrmObject::Connector => seq![DrmSetting { object, property: "CRTC_ID", value: DrmValue::Off }],
        DrmObject::Plane => seq![
            DrmSetting { object, property: "FB_ID", value: DrmValue::Off },
            DrmSetting { object, property: "CRTC_ID", value: DrmValue::Off },
        ],
        DrmObject::Crtc => seq![
            DrmSetting { object, property: "MODE_ID", value: DrmValue::Off },
            DrmSetting { object, property: "ACTIVE", value: DrmValue::Boolean(false) },
        ],
    }
}

/// The settings that turn an object off.
pub fn turn_off(object: DrmObject) -> (r: Vec<DrmSetting>)
    ensures
        r@ == off_settings(object),
{
    let mut r: Vec<DrmSetting> = Vec::new();
    match object {
        DrmObject::Connector => {
            r.push(DrmSetting { object, property: "CRTC_ID", value: DrmValue::Off });
        },
        DrmObject::Plane => {
            r.push(DrmSetting { object, property: "FB_ID", value: DrmValue::Off });
            r.push(DrmSetting { object, property: "CRTC_ID", value: DrmValue::Off });
        },
        DrmObject::Crtc => {
            r.push(DrmSetting { object, property: "MODE_ID", value: DrmValue::Off });
            r.push(DrmSetting { object, property: "ACTIVE", value: DrmValue::Boolean(false) });
        },
    }
    assert(r@ =~= off_settings(object));
    r
}

/// What an input device reports.
#[derive(Debug, Clone, Copy, PartialEq, Eq, Structural)]
pub enum DeviceInput {
    Key { time: InputTimestamp, key: u32, state: PressState },
    Motion { time: InputTimestamp, dx: Fixed, dy: Fixed },
    Button { time: InputTimestamp, btn: u32, state: PressState },
    /// A turn of the wheel, if it is a vertical one.
    ScrollWheel { time: InputTimestamp, vertical: Option<Fixed> },
    Other,
}

/// The number of the one keyboard and the one pointer.
pub const DEVICE: u64 = 1;

/// The event that a report of an input device leads to.
pub open spec fn device_event(input: DeviceInput) -> Option<BackendEvent> {
    match input {
        DeviceInput::Key { time, key, state: PressState::Pressed } => Some(
            BackendEvent::KeyPressed(KeyboardId(DEVICE), time, key),
        ),
        DeviceInput::Key { time, key, state: PressState::Released } => Some(
            BackendEvent::KeyReleased(KeyboardId(DEVICE), time, key),
        ),
        DeviceInput::Motion { time, dx, dy } => Some(
            BackendEvent::PointerMotionRelative(PointerId(DEVICE), time, dx, dy),
        ),
        DeviceInput::Button { time, btn, state: PressState::Pressed } => Some(
            BackendEvent::PointerBtnPress(PointerId(DEVICE), time, btn),
        ),
        DeviceInput::Button { time, btn, state: PressState::Released } => Some(
            BackendEvent::PointerBtnRelease(PointerId(DEVICE), time, btn),
        ),
        DeviceInput::ScrollWheel { time, vertical } => Some(
            BackendEvent::PointerAxisVertial(
                PointerId(DEVICE),
                time,
                match vertical {
                    Some(value) => value,
                    None => Fixed(0),
                },
            ),
        ),
        DeviceInput::Other => None,
    }
}

/// What is to be done when the seat was given or taken.
#[derive(Debug, Clone, Copy, PartialEq, Eq, Structural)]
pub enum SeatAction {
    /// Show one of the two buffers again and listen to input.
    Resume(usize),
    /// Give the seat up and stop listening to input.
    Suspend,
    Nothing,
}

/// The state of the backend: whether the seat is taken, which of the two buffers is in front, and
/// the events that wait to be handled.
#[derive(Debug)]
pub struct BackendImp {
    suspended: bool,
    front: usize,
    backend_events_queue: VecDeque<BackendEvent>,
}

/// What a [`BackendImp`] says.
#[verifier::ext_equal]
pub struct BackendV {
    pub suspended: bool,
    pub front: usize,
    pub queue: Seq<BackendEvent>,
}

impl View for BackendImp {
    type V = BackendV;

    closed spec fn view(&self) -> BackendV {
        BackendV { suspended: self.suspended, front: self.front, queue: self.backend_events_queue@ }
    }
}

/// The other one of two buffers.
pub open spec fn other_buffer(i: usize) -> usize {
    if i == 0 {
        1
    } else {
        0
    }
}

impl BackendV {
    /// What a change of the seat asks for.
    pub open spec fn seat_action(self, event: libseat::Event) -> SeatAction {
        match event {
            libseat::Event::Enable => if self.suspended {
                SeatAction::Resume(self.front)
            } else {
                SeatAction::Nothing
            },
            libseat::Event::Disable => SeatAction::Suspend,
        }
    }
}

impl BackendImp {
    /// A backend that has the seat and shows the first buffer.
    pub fn new() -> (r: Self)
        ensures
            r@ == (BackendV { suspended: false, front: 0, queue: Seq::empty() }),
    {
        let r = Self { suspended: false, front: 0, backend_events_queue: VecDeque::new() };
        assert(r@.queue =~= Seq::<BackendEvent>::empty());
        r
    }

    /// Notes that the screen shows a new frame.
    pub fn page_flipped(&mut self)
        ensures
            final(self)@ == (BackendV { queue: old(self)@.queue.push(BackendEvent::Frame), ..old(self)@ }),
    {
        self.backend_events_queue.push_back(BackendEvent::Frame);
    }

    /// Notes that the seat was given or taken.
    pub fn seat_event(&mut self, event: libseat::Event) -> (r: SeatAction)
        ensures
            r == old(self)@.seat_action(event),
            final(self)@ == (BackendV { suspended: event is Disable, ..old(self)@ }),
    {
        match event {
            libseat::Event::Enable => {
                if self.suspended {
                    self.suspended = false;
                    SeatAction::Resume(self.front)
                } else {
                    SeatAction::Nothing
                }
            },
            libseat::Event::Disable => {
                self.suspended = true;
                SeatAction::Suspend
            },
        }
    }

    /// Notes a report of an input device.
    pub fn device_input(&mut self, input: DeviceInput)
        ensures
            final(self)@ == (BackendV {
                queue: match device_event(input) {
                    Some(event) => old(self)@.queue.push(event),
                    None => old(self)@.queue,
                },
                ..old(self)@
            }),
    {
        let event = match input {
            DeviceInput::Key { time, key, state } => match state {
                PressState::Pressed => BackendEvent::KeyPressed(KeyboardId(DEVICE), time, key),
                PressState::Released => BackendEvent::KeyReleased(KeyboardId(DEVICE), time, key),
            },
            DeviceInput::Motion { time, dx, dy } => BackendEvent::PointerMotionRelative(PointerId(DEVICE), time, dx, dy),
            DeviceInput::Button { time, btn, state } => match state {
                PressState::Pressed => BackendEvent::PointerBtnPress(PointerId(DEVICE), time, btn),
                PressState::Released => BackendEvent::PointerBtnRelease(PointerId(DEVICE), time, btn),
            },
            DeviceInput::ScrollWheel { time, vertical } => {
                let value = match vertical {
                    Some(value) => value,
                    None => Fixed(0),
                };
                BackendEvent::PointerAxisVertial(PointerId(DEVICE), time, value)
            },
            DeviceInput::Other => {
                return ;
            },
        };
        self.backend_events_queue.push_back(event);
    }

    /// Takes the event that waits longest.
    pub fn next_event(&mut self) -> (r: Option<BackendEvent>)
        ensures
            old(self)@.queue.len() == 0 ==> r is None && final(self)@ == old(self)@,
            old(self)@.queue.len() > 0 ==> {
                &&& r == Some(old(self)@.queue[0])
                &&& final(self)@ == (BackendV { queue: old(self)@.queue.drop_first(), ..old(self)@ })
            },
    {
        let ghost q = self@.queue;
        let r = self.backend_events_queue.pop_front();
        assert(q.len() > 0 ==> self@.queue =~= q.drop_first());
        r
    }

    /// Starts a frame. Says which of the two buffers it is drawn to and shown from, unless the seat
    /// is taken.
    pub fn render_frame(&mut self) -> (r: Option<usize>)
        requires
            old(self)@.front < 2,
        ensures
            r == (if old(self)@.suspended {
                None
            } else {
                Some(old(self)@.front)
            }),
            final(self)@ == old(self)@.frame_started(),
    {
        if self.suspended {
            return None;
        }
        let back: usize = self.front;
        self.front = if back == 0 {
            1
        } else {
            0
        };
        Some(back)
    }
}

impl BackendV {
    /// The backend after a frame was started.
    pub open spec fn frame_started(self) -> BackendV {
        if self.suspended {
            self
        } else {
            BackendV { front: other_buffer(self.front), ..self }
        }
    }
}

/// Two frames in a row are drawn to different buffers, and every other frame to the same.
pub proof fn law_frames_alternate(b: BackendV)
    requires
        b.front < 2,
        !b.suspended,
    ensures
        b.frame_started().front != b.front,
        b.frame_started().frame_started().front == b.front,
{
}

/// In little endian order each byte counts 256 times as much as the one before it, in big endian order as the one after
/// it. The number of the same bytes in reverse order is that of the other order.
pub proof fn law_byte_order(blob: Seq<u8>, at: int)
    ensures
        u32_at(ByteOrder::Little, blob, at) == blob[at] + 0x100 * blob[at + 1] + 0x1_0000 * blob[at + 2] + 0x100_0000
            * blob[at + 3],
        u32_at(ByteOrder::Big, blob, at) == blob[at + 3] + 0x100 * blob[at + 2] + 0x1_0000 * blob[at + 1] + 0x100_0000
            * blob[at],
        u64_at(ByteOrder::Little, blob, at) == u32_at(ByteOrder::Little, blob, at) + 0x1_0000_0000 * u32_at(
            ByteOrder::Little,
            blob,
            at + 4,
        ),
        u64_at(ByteOrder::Big, blob, at) == u32_at(ByteOrder::Big, blob, at + 4) + 0x1_0000_0000 * u32_at(
            ByteOrder::Big,
            blob,
            at,
        ),
{
}

/// What an input device reports is passed on as it was reported: presses as presses, releases as releases, motion as
/// motion by a distance, and turns of the wheel as far as they are on the vertical axis.
pub proof fn law_device_reports_are_passed_on(time: InputTimestamp, code: u32, dx: Fixed, dy: Fixed)
    ensures
        device_event(DeviceInput::Key { time, key: code, state: PressState::Pressed }) matches Some(
            BackendEvent::KeyPressed(_, t, c),
        ) && t == time && c == code,
        device_event(DeviceInput::Key { time, key: code, state: PressState::Released }) matches Some(
            BackendEvent::KeyReleased(_, t, c),
        ) && t == time && c == code,
        device_event(DeviceInput::Button { time, btn: code, state: PressState::Pressed }) matches Some(
            BackendEvent::PointerBtnPress(_, t, c),
        ) && t == time && c == code,
        device_event(DeviceInput::Button { time, btn: code, state: PressState::Released }) matches Some(
            BackendEvent::PointerBtnRelease(_, t, c),
        ) && t == time && c == code,
        device_event(DeviceInput::Motion { time, dx, dy }) matches Some(BackendEvent::PointerMotionRelative(_, t, x, y))
            && t == time && x == dx && y == dy,
        device_event(DeviceInput::ScrollWheel { time, vertical: Some(dy) }) matches Some(
            BackendEvent::PointerAxisVertial(_, t, v),
        ) && t == time && v == dy,
        device_event(DeviceInput::Other) is None,
{
}

/// A buffer is shown whole, from the corner of the screen on, over as many pixels as it has.
pub proof fn law_buffer_fills_the_screen(width: u16, height: u16, fb: usize)
    ensures
        ({
            let m = mode_settings(width, height, fb);
            &&& m.len() == 13
            &&& m[3].value == DrmValue::Framebuffer(fb)
            &&& m[2].value == DrmValue::Boolean(true)
            &&& m[5].value == DrmValue::Unsigned(0) && m[6].value == DrmValue::Unsigned(0)
            &&& m[9].value == DrmValue::Signed(0) && m[10].value == DrmValue::Signed(0)
            &&& m[7].value matches DrmValue::Unsigned(v) && m[11].value matches DrmValue::Unsigned(w) && v == 65536 * w
                && w == width
            &&& m[8].value matches DrmValue::Unsigned(v) && m[12].value matches DrmValue::Unsigned(w) && v == 65536 * w
                && w == height
            &&& m[7].property@ == "SRC_W"@ && m[11].property@ == "CRTC_W"@
            &&& m[8].property@ == "SRC_H"@ && m[12].property@ == "CRTC_H"@
            &&& m[3].property@ == "FB_ID"@ && m[2].property@ == "ACTIVE"@
        }),
{
}

} // verus!
