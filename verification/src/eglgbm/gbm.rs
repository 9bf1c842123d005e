//! Buffers in graphics memory.
use vstd::prelude::*;

use crate::eglgbm::Fourcc;

verus! {

/// A plane of a buffer in graphics memory. The descriptor is known by its number.
#[derive(Debug, Clone, Copy, PartialEq, Eq, Structural)]
pub struct BufferPlane {
    pub dmabuf: i32,
    pub handle: u32,
    pub offset: u32,
    pub stride: u32,
}

/// A buffer in graphics memory.
#[derive(Debug)]
pub struct BufferExport {
    pub width: u32,
    pub height: u32,
    pub format: Fourcc,
    pub modifier: u64,
    pub planes: Vec<BufferPlane>,
}

/// A property of an image and its value.
#[derive(Debug, Clone, Copy, PartialEq, Eq, Structural)]
pub enum ImageAttr {
    Width(u32),
    Height(u32),
    Fourcc(u32),
    PlaneFd(usize, i32),
    PlaneOffset(usize, u32),
    PlanePitch(usize, u32),
    PlaneModifierLo(usize, u32),
    PlaneModifierHi(usize, u32),
}

/// The low half of a modifier.
pub open spec fn modifier_lo(modifier: u64) -> u32 {
    (modifier & 0xffff_ffff) as u32
}

/// The high half of a modifier.
pub open spec fn modifier_hi(modifier: u64) -> u32 {
    (modifier >> 32) as u32
}

/// The modifier with two halves.
pub open spec fn modifier_of_halves(hi: u32, lo: u32) -> u64 {
    ((hi as u64) << 32) | lo as u64
}

/// A modifier is put together from the halves that it is taken apart into.
pub proof fn law_modifier_halves(modifier: u64)
    ensures
        modifier_of_halves(modifier_hi(modifier), modifier_lo(modifier)) == modifier,
{
    assert((((modifier >> 32) as u32 as u64) << 32) | ((modifier & 0xffff_ffff) as u32 as u64) == modifier)
        by (bit_vector);
}

/// The halves of a modifier that was put together are what it was made of.
pub proof fn law_modifier_of_halves(hi: u32, lo: u32)
    ensures
        modifier_hi(modifier_of_halves(hi, lo)) == hi,
        modifier_lo(modifier_of_halves(hi, lo)) == lo,
{
    assert((((hi as u64) << 32 | lo as u64) >> 32) as u32 == hi) by (bit_vector);
    assert((((hi as u64) << 32 | lo as u64) & 0xffff_ffff) as u32 == lo) by (bit_vector);
}

/// Splits a modifier into its high and its low half.
pub fn split_modifier(modifier: u64) -> (r: (u32, u32))
    ensures
        r == (modifier_hi(modifier), modifier_lo(modifier)),
{
    ((modifier >> 32) as u32, (modifier & 0xffff_ffff) as u32)
}

/// The modifier with two halves.
pub fn join_modifier(hi: u32, lo: u32) -> (r: u64)
    ensures
        r == modifier_of_halves(hi, lo),
{
    ((hi as u64) << 32) | lo as u64
}

/// The properties of a plane of an image.
pub open spec fn plane_attrs(i: int, plane: BufferPlane, modifier: u64) -> Seq<ImageAttr> {
    seq![
        ImageAttr::PlaneFd(i as usize, plane.dmabuf),
        ImageAttr::PlaneOffset(i as usize, plane.offset),
        ImageAttr::PlanePitch(i as usize, plane.stride),
        ImageAttr::PlaneModifierLo(i as usize, modifier_lo(modifier)),
        ImageAttr::PlaneModifierHi(i as usize, modifier_hi(modifier)),
    ]
}

/// The properties of the first planes of an image.
pub open spec fn planes_attrs(planes: Seq<BufferPlane>, modifier: u64) -> Seq<ImageAttr>
    decreases planes.len(),
{
    if planes.len() == 0 {
        Seq::empty()
    } else {
        planes_attrs(planes.drop_last(), modifier) + plane_attrs(planes.len() - 1, planes.last(), modifier)
    }
}

impl BufferExport {
    /// The properties of the image that shows the buffer: its size and format, and of each plane the
    /// descriptor, the place in it and the modifier.
    pub fn image_attrs(&self) -> (r: Vec<ImageAttr>)
        ensures
            r@ == seq![
                ImageAttr::Width(self.width),
                ImageAttr::Height(self.height),
                ImageAttr::Fourcc(self.format.0),
            ] + planes_attrs(self.planes@, self.modifier),
    {
        let mut attrs: Vec<ImageAttr> = Vec::new();
        attrs.push(ImageAttr::Width(self.width));
        attrs.push(ImageAttr::Height(self.height));
        attrs.push(ImageAttr::Fourcc(self.format.0));
        let ghost head = attrs@;
        assert(head =~= seq![
            ImageAttr::Width(self.width),
            ImageAttr::Height(self.height),
            ImageAttr::Fourcc(self.format.0),
        ]);
        let (hi, lo) = split_modifier(self.modifier);
        let mut i: usize = 0;
        assert(self.planes@.take(0) =~= Seq::<BufferPlane>::empty());
        assert(head + planes_attrs(self.planes@.take(0), self.modifier) =~= head);
        while i < self.planes.len()
            invariant
                i <= self.planes.len(),
                hi == modifier_hi(self.modifier),
                lo == modifier_lo(self.modifier),
                attrs@ == head + planes_attrs(self.planes@.take(i as int), self.modifier),
            decreases self.planes.len() - i,
        {
            let plane = self.planes[i];
            let ghost before = attrs@;
            attrs.push(ImageAttr::PlaneFd(i, plane.dmabuf));
            attrs.push(ImageAttr::PlaneOffset(i, plane.offset));
            attrs.push(ImageAttr::PlanePitch(i, plane.stride));
            attrs.push(ImageAttr::PlaneModifierLo(i, lo));
            attrs.push(ImageAttr::PlaneModifierHi(i, hi));
            assert(attrs@ =~= before + plane_attrs(i as int, plane, self.modifier));
            assert(self.planes@.take(i + 1).drop_last() =~= self.planes@.take(i as int));
            assert(attrs@ =~= head + planes_attrs(self.planes@.take(i + 1), self.modifier));
            i = i + 1;
        }
        assert(self.planes@.take(i as int) =~= self.planes@);
        attrs
    }

    /// The plane with an index, or one without pixels.
    fn plane_or_none(&self, i: usize) -> (r: BufferPlane)
        ensures
            r == self.plane_at(i as int),
    {
        if i < self.planes.len() {
            self.planes[i]
        } else {
            BufferPlane { dmabuf: -1, handle: 0, offset: 0, stride: 0 }
        }
    }

    /// The plane with an index, or one without pixels.
    pub open spec fn plane_at(self, i: int) -> BufferPlane {
        if i < self.planes@.len() {
            self.planes@[i]
        } else {
            BufferPlane { dmabuf: -1i32, handle: 0, offset: 0, stride: 0 }
        }
    }

    /// The lengths of the rows of the four planes.
    pub fn pitches(&self) -> (r: [u32; 4])
        requires
            self.planes.len() > 0,
        ensures
            forall|i: int| 0 <= i < 4 ==> (#[trigger] r@[i]) == self.plane_at(i).stride,
    {
        [
            self.plane_or_none(0).stride,
            self.plane_or_none(1).stride,
            self.plane_or_none(2).stride,
            self.plane_or_none(3).stride,
        ]
    }

    /// The handles of the four planes; a plane without a handle has 0.
    pub fn handles(&self) -> (r: [u32; 4])
        requires
            self.planes.len() > 0,
        ensures
            forall|i: int| 0 <= i < 4 ==> (#[trigger] r@[i]) == self.plane_at(i).handle,
    {
        [
            self.plane_or_none(0).handle,
            self.plane_or_none(1).handle,
            self.plane_or_none(2).handle,
            self.plane_or_none(3).handle,
        ]
    }

    /// Where the four planes begin.
    pub fn offsets(&self) -> (r: [u32; 4])
        requires
            self.planes.len() > 0,
        ensures
            forall|i: int| 0 <= i < 4 ==> (#[trigger] r@[i]) == self.plane_at(i).offset,
    {
        [
            self.plane_or_none(0).offset,
            self.plane_or_none(1).offset,
            self.plane_or_none(2).offset,
            self.plane_or_none(3).offset,
        ]
    }
}

} // verus!
