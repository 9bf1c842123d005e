//! Surfaces.
use vstd::prelude::*;

use crate::backend::BufferId;
use crate::buffer_transform::{buffer_transform, BufferTransform, ViewportSrc};
use crate::error::Error;
use crate::globals::xdg_shell::{SpecificRole, XdgSurfaceRole};
use crate::protocol::{Action, Handle, Transform};
use crate::region::Region;

verus! {

/// One part of a surface's state that a commit can replace.
#[derive(Debug, Clone, Copy, PartialEq, Eq, Structural)]
pub enum CommittedMaskBit {
    Buffer,
    OpaqueRegion,
    InputRegion,
    Subsurfaces,
    FrameCb,
    Transform,
    ViewportSrc,
    ViewportDst,
    Scale,
}

impl CommittedMaskBit {
    /// The bit that stands for this part in a mask.
    pub open spec fn value(self) -> u32 {
        match self {
            CommittedMaskBit::Buffer => 1,
            CommittedMaskBit::OpaqueRegion => 2,
            CommittedMaskBit::InputRegion => 4,
            CommittedMaskBit::Subsurfaces => 8,
            CommittedMaskBit::FrameCb => 16,
            CommittedMaskBit::Transform => 32,
            CommittedMaskBit::ViewportSrc => 64,
            CommittedMaskBit::ViewportDst => 128,
            CommittedMaskBit::Scale => 256,
        }
    }

    /// The bit that stands for this part in a mask.
    pub fn bit(self) -> (r: u32)
        ensures
            r == self.value(),
    {
        match self {
            CommittedMaskBit::Buffer => 1,
            CommittedMaskBit::OpaqueRegion => 2,
            CommittedMaskBit::InputRegion => 4,
            CommittedMaskBit::Subsurfaces => 8,
            CommittedMaskBit::FrameCb => 16,
            CommittedMaskBit::Transform => 32,
            CommittedMaskBit::ViewportSrc => 64,
            CommittedMaskBit::ViewportDst => 128,
            CommittedMaskBit::Scale => 256,
        }
    }
}

/// The parts of a surface's state that were set since the last commit.
#[derive(Debug, Clone, Copy, PartialEq, Eq, Structural)]
pub struct CommitedMask(u32);

impl View for CommitedMask {
    type V = Set<CommittedMaskBit>;

    closed spec fn view(&self) -> Set<CommittedMaskBit> {
        Set::new(|b: CommittedMaskBit| self.0 & b.value() != 0)
    }
}

impl CommitedMask {
    /// Only bits of known parts are ever set.
    #[verifier::type_invariant]
    closed spec fn known_bits(self) -> bool {
        self.0 < 512
    }

    /// A mask with nothing set.
    pub fn new() -> (r: Self)
        ensures
            r@ == Set::<CommittedMaskBit>::empty(),
    {
        let r = Self(0);
        proof {
            assert(forall|x: u32| 0u32 & x == 0) by (bit_vector);
            assert(r@ =~= Set::<CommittedMaskBit>::empty());
        }
        r
    }

    /// Forgets everything that was set.
    pub fn clear(&mut self)
        ensures
            final(self)@ == Set::<CommittedMaskBit>::empty(),
    {
        self.0 = 0;
        proof {
            assert(forall|x: u32| 0u32 & x == 0) by (bit_vector);
            assert(self@ =~= Set::<CommittedMaskBit>::empty());
        }
    }

    /// Marks one part as set.
    pub fn set(&mut self, bit: CommittedMaskBit)
        ensures
            final(self)@ == old(self)@.insert(bit),
    {
        proof {
            use_type_invariant(&*self);
        }
        let ghost m = self.0;
        let b: u32 = bit.bit();
        proof {
            lemma_bits(m, b);
        }
        self.0 = self.0 | b;
        proof {
            assert forall|x: CommittedMaskBit| self@.contains(x) == old(self)@.insert(bit).contains(x) by {
                lemma_or_bits(m, b, x.value());
                lemma_distinct(x, bit);
            }
            assert(self@ =~= old(self)@.insert(bit));
        }
    }

    /// Adds everything that `other` has set.
    pub fn merge(&mut self, other: Self)
        ensures
            final(self)@ == old(self)@.union(other@),
    {
        proof {
            use_type_invariant(&*self);
            use_type_invariant(&other);
        }
        let ghost m = self.0;
        let o: u32 = other.0;
        proof {
            lemma_bits(m, o);
        }
        self.0 = self.0 | o;
        proof {
            assert forall|x: CommittedMaskBit| self@.contains(x) == old(self)@.union(other@).contains(x) by {
                lemma_or_bits(m, o, x.value());
            }
            assert(self@ =~= old(self)@.union(other@));
        }
    }

    /// Whether nothing is set.
    pub fn empty(self) -> (r: bool)
        ensures
            r == (self@ == Set::<CommittedMaskBit>::empty()),
    {
        proof {
            use_type_invariant(&self);
            let m = self.0;
            assert(forall|x: u32| 0u32 & x == 0) by (bit_vector);
            if m == 0 {
                assert(self@ =~= Set::<CommittedMaskBit>::empty());
            } else {
                lemma_some_bit(m);
                assert(self@.contains(CommittedMaskBit::Buffer) || self@.contains(CommittedMaskBit::OpaqueRegion)
                    || self@.contains(CommittedMaskBit::InputRegion) || self@.contains(CommittedMaskBit::Subsurfaces)
                    || self@.contains(CommittedMaskBit::FrameCb) || self@.contains(CommittedMaskBit::Transform)
                    || self@.contains(CommittedMaskBit::ViewportSrc) || self@.contains(CommittedMaskBit::ViewportDst)
                    || self@.contains(CommittedMaskBit::Scale));
            }
        }
        self.0 == 0
    }

    /// Whether `bit` is set.
    pub fn contains(self, bit: CommittedMaskBit) -> (r: bool)
        ensures
            r == self@.contains(bit),
    {
        self.0 & bit.bit() != 0
    }
}

proof fn lemma_bits(a: u32, b: u32)
    by (bit_vector)
    requires
        a < 512,
        b < 512,
    ensures
        a | b < 512,
{
}

proof fn lemma_or_bits(a: u32, b: u32, c: u32)
    by (bit_vector)
    ensures
        (a | b) & c != 0 <==> a & c != 0 || b & c != 0,
{
}

proof fn lemma_some_bit(m: u32)
    by (bit_vector)
    requires
        0 < m < 512,
    ensures
        m & 1 != 0 || m & 2 != 0 || m & 4 != 0 || m & 8 != 0 || m & 16 != 0 || m & 32 != 0 || m & 64 != 0
            || m & 128 != 0 || m & 256 != 0,
{
}

proof fn lemma_distinct(x: CommittedMaskBit, y: CommittedMaskBit)
    ensures
        y.value() & x.value() != 0 <==> x == y,
{
    assert(forall|a: u32, b: u32|
        #![auto]
        (a == 1 || a == 2 || a == 4 || a == 8 || a == 16 || a == 32 || a == 64 || a == 128 || a == 256) && (b == 1 || b
            == 2 || b == 4 || b == 8 || b == 16 || b == 32 || b == 64 || b == 128 || b == 256) ==> ((a & b != 0)
            <==> a == b)) by (bit_vector);
}

/// A buffer that the renderer holds for a surface, with its size.
#[derive(Debug, Clone, Copy, PartialEq, Eq, Structural)]
pub struct CommittedBuffer {
    pub id: BufferId,
    pub width: u32,
    pub height: u32,
}

/// The place of a subsurface on its parent.
#[derive(Debug, Clone, Copy, PartialEq, Eq)]
pub struct SubsurfaceNode {
    pub surface: usize,
    pub position: (i32, i32),
}

/// State of a surface that is set and committed as one.
#[derive(Debug)]
pub struct SurfaceState {
    pub mask: CommitedMask,
    pub buffer: Option<CommittedBuffer>,
    pub transform: Option<Transform>,
    pub scale: Option<i32>,
    pub opaque_region: Option<Region>,
    pub input_region: Option<Region>,
    pub subsurfaces: Vec<SubsurfaceNode>,
    pub frame_cbs: Vec<Handle>,
    pub viewport_src: Option<ViewportSrc>,
    pub viewport_dst: Option<(u32, u32)>,
}

/// What a [`SurfaceState`] says.
#[verifier::ext_equal]
pub struct SurfaceStateV {
    pub mask: Set<CommittedMaskBit>,
    pub buffer: Option<CommittedBuffer>,
    pub transform: Option<Transform>,
    pub scale: Option<i32>,
    pub opaque_region: Option<Set<(int, int)>>,
    pub input_region: Option<Set<(int, int)>>,
    pub subsurfaces: Seq<SubsurfaceNode>,
    pub frame_cbs: Seq<Handle>,
    pub viewport_src: Option<ViewportSrc>,
    pub viewport_dst: Option<(u32, u32)>,
}

/// The pixels of a region that may be missing.
pub open spec fn region_view(r: Option<Region>) -> Option<Set<(int, int)>> {
    match r {
        Some(region) => Some(region@),
        None => None,
    }
}

impl View for SurfaceState {
    type V = SurfaceStateV;

    open spec fn view(&self) -> SurfaceStateV {
        SurfaceStateV {
            mask: self.mask@,
            buffer: self.buffer,
            transform: self.transform,
            scale: self.scale,
            opaque_region: region_view(self.opaque_region),
            input_region: region_view(self.input_region),
            subsurfaces: self.subsurfaces@,
            frame_cbs: self.frame_cbs@,
            viewport_src: self.viewport_src,
            viewport_dst: self.viewport_dst,
        }
    }
}

/// The state of which nothing was set.
pub open spec fn no_state() -> SurfaceStateV {
    SurfaceStateV {
        mask: Set::empty(),
        buffer: None,
        transform: None,
        scale: None,
        opaque_region: None,
        input_region: None,
        subsurfaces: Seq::empty(),
        frame_cbs: Seq::empty(),
        viewport_src: None,
        viewport_dst: None,
    }
}

impl SurfaceStateV {
    /// This state after the parts that `src` has set were applied to it.
    pub open spec fn with_applied(self, src: SurfaceStateV) -> SurfaceStateV {
        SurfaceStateV {
            mask: self.mask.union(src.mask),
            buffer: if src.mask.contains(CommittedMaskBit::Buffer) {
                src.buffer
            } else {
                self.buffer
            },
            transform: if src.mask.contains(CommittedMaskBit::Transform) {
                src.transform
            } else {
                self.transform
            },
            scale: if src.mask.contains(CommittedMaskBit::Scale) {
                src.scale
            } else {
                self.scale
            },
            opaque_region: if src.mask.contains(CommittedMaskBit::OpaqueRegion) {
                src.opaque_region
            } else {
                self.opaque_region
            },
            input_region: if src.mask.contains(CommittedMaskBit::InputRegion) {
                src.input_region
            } else {
                self.input_region
            },
            subsurfaces: if src.mask.contains(CommittedMaskBit::Subsurfaces) {
                src.subsurfaces
            } else {
                self.subsurfaces
            },
            frame_cbs: if src.mask.contains(CommittedMaskBit::FrameCb) {
                self.frame_cbs + src.frame_cbs
            } else {
                self.frame_cbs
            },
            viewport_src: if src.mask.contains(CommittedMaskBit::ViewportSrc) {
                src.viewport_src
            } else {
                self.viewport_src
            },
            viewport_dst: if src.mask.contains(CommittedMaskBit::ViewportDst) {
                src.viewport_dst
            } else {
                self.viewport_dst
            },
        }
    }

    /// What is left of this state after the parts that it has set were applied elsewhere. The list
    /// of subsurfaces stays.
    pub open spec fn after_apply(self) -> SurfaceStateV {
        SurfaceStateV {
            mask: Set::empty(),
            buffer: if self.mask.contains(CommittedMaskBit::Buffer) {
                None
            } else {
                self.buffer
            },
            transform: if self.mask.contains(CommittedMaskBit::Transform) {
                None
            } else {
                self.transform
            },
            scale: if self.mask.contains(CommittedMaskBit::Scale) {
                None
            } else {
                self.scale
            },
            opaque_region: if self.mask.contains(CommittedMaskBit::OpaqueRegion) {
                None
            } else {
                self.opaque_region
            },
            input_region: if self.mask.contains(CommittedMaskBit::InputRegion) {
                None
            } else {
                self.input_region
            },
            subsurfaces: self.subsurfaces,
            frame_cbs: if self.mask.contains(CommittedMaskBit::FrameCb) {
                Seq::empty()
            } else {
                self.frame_cbs
            },
            viewport_src: if self.mask.contains(CommittedMaskBit::ViewportSrc) {
                None
            } else {
                self.viewport_src
            },
            viewport_dst: if self.mask.contains(CommittedMaskBit::ViewportDst) {
                None
            } else {
                self.viewport_dst
            },
        }
    }

    /// The buffer that this state gives up when `src` is applied to it.
    pub open spec fn unlocked_by(self, src: SurfaceStateV) -> Seq<Action> {
        if src.mask.contains(CommittedMaskBit::Buffer) && self.buffer is Some {
            seq![Action::UnlockBuffer { buffer: self.buffer->0.id }]
        } else {
            Seq::empty()
        }
    }
}

impl SurfaceState {
    /// State of which nothing was set.
    pub fn new() -> (r: Self)
        ensures
            r@ == no_state(),
    {
        Self {
            mask: CommitedMask::new(),
            buffer: None,
            transform: None,
            scale: None,
            opaque_region: None,
            input_region: None,
            subsurfaces: Vec::new(),
            frame_cbs: Vec::new(),
            viewport_src: None,
            viewport_dst: None,
        }
    }

    /// Moves the parts that were set to `dst`. A buffer that `dst` held is given back.
    pub fn apply_to_and_clear(&mut self, dst: &mut Self, actions: &mut Vec<Action>)
        ensures
            final(dst)@ == old(dst)@.with_applied(old(self)@),
            final(self)@ == old(self)@.after_apply(),
            final(actions)@ == old(actions)@ + old(dst)@.unlocked_by(old(self)@),
    {
        let ghost src0 = self@;
        let ghost dst0 = dst@;
        let ghost actions0 = actions@;
        if self.mask.empty() {
            assert(dst@.mask =~= dst0.mask.union(src0.mask));
            assert(actions@ =~= actions0 + dst0.unlocked_by(src0));
            return ;
        }
        dst.mask.merge(self.mask);
        if self.mask.contains(CommittedMaskBit::Buffer) {
            if let Some(old_buf) = dst.buffer {
                actions.push(Action::UnlockBuffer { buffer: old_buf.id });
            }
            dst.buffer = self.buffer.take();
        }
        assert(actions@ =~= actions0 + dst0.unlocked_by(src0));
        if self.mask.contains(CommittedMaskBit::OpaqueRegion) {
            dst.opaque_region = self.opaque_region.take();
        }
        if self.mask.contains(CommittedMaskBit::InputRegion) {
            dst.input_region = self.input_region.take();
        }
        if self.mask.contains(CommittedMaskBit::Subsurfaces) {
            dst.subsurfaces = copy_nodes(&self.subsurfaces);
        }
        if self.mask.contains(CommittedMaskBit::FrameCb) {
            dst.frame_cbs.append(&mut self.frame_cbs);
        }
        if self.mask.contains(CommittedMaskBit::Transform) {
            dst.transform = self.transform.take();
        }
        if self.mask.contains(CommittedMaskBit::ViewportSrc) {
            dst.viewport_src = self.viewport_src.take();
        }
        if self.mask.contains(CommittedMaskBit::ViewportDst) {
            dst.viewport_dst = self.viewport_dst.take();
        }
        if self.mask.contains(CommittedMaskBit::Scale) {
            dst.scale = self.scale.take();
        }
        self.mask.clear();
    }
}

/// A list with the same nodes.
fn copy_nodes(nodes: &Vec<SubsurfaceNode>) -> (r: Vec<SubsurfaceNode>)
    ensures
        r@ == nodes@,
{
    let mut copy: Vec<SubsurfaceNode> = Vec::new();
    let mut i: usize = 0;
    while i < nodes.len()
        invariant
            i <= nodes.len(),
            copy@ == nodes@.take(i as int),
        decreases nodes.len() - i,
    {
        copy.push(nodes[i]);
        assert(copy@ =~= nodes@.take(i + 1));
        i = i + 1;
    }
    assert(copy@ =~= nodes@);
    copy
}

/// Applying a state a second time does nothing: nothing is set any more.
pub proof fn law_apply_twice(src: SurfaceStateV, dst: SurfaceStateV)
    ensures
        dst.with_applied(src).with_applied(src.after_apply()) == dst.with_applied(src),
        dst.with_applied(src).unlocked_by(src.after_apply()) == Seq::<Action>::empty(),
        src.after_apply().after_apply() == src.after_apply(),
{
    assert(dst.with_applied(src).with_applied(src.after_apply()) =~= dst.with_applied(src));
}

/// State goes the same way through a cache as directly: two commits that are collected in a cache
/// and then applied leave what the two commits leave when each is applied at once.
pub proof fn law_cached_commits_add_up(first: SurfaceStateV, second: SurfaceStateV, cache: SurfaceStateV, dst: SurfaceStateV)
    requires
        cache.mask == Set::<CommittedMaskBit>::empty(),
        cache.frame_cbs.len() == 0,
    ensures
        dst.with_applied(cache.with_applied(first).with_applied(second)) == dst.with_applied(first).with_applied(second),
{
    assert(dst.with_applied(cache.with_applied(first).with_applied(second)) =~= dst.with_applied(first).with_applied(
        second,
    ));
}

/// The role of a surface that is part of another surface.
#[derive(Debug)]
pub struct SubsurfaceRole {
    pub parent: usize,
    pub is_sync: bool,
    pub cached_state: SurfaceState,
}

/// What a surface is used for.
#[derive(Debug)]
pub enum SurfaceRole {
    NoRole,
    Cursor,
    Subsurface(SubsurfaceRole),
    Xdg(XdgSurfaceRole),
}

/// What a [`SubsurfaceRole`] says.
#[verifier::ext_equal]
pub struct SubsurfaceRoleV {
    pub parent: usize,
    pub is_sync: bool,
    pub cached_state: SurfaceStateV,
}

/// What a [`SurfaceRole`] says.
#[verifier::ext_equal]
pub enum SurfaceRoleV {
    NoRole,
    Cursor,
    Subsurface(SubsurfaceRoleV),
    Xdg(XdgSurfaceRole),
}

impl View for SurfaceRole {
    type V = SurfaceRoleV;

    open spec fn view(&self) -> SurfaceRoleV {
        match *self {
            SurfaceRole::NoRole => SurfaceRoleV::NoRole,
            SurfaceRole::Cursor => SurfaceRoleV::Cursor,
            SurfaceRole::Subsurface(sub) => SurfaceRoleV::Subsurface(
                SubsurfaceRoleV { parent: sub.parent, is_sync: sub.is_sync, cached_state: sub.cached_state@ },
            ),
            SurfaceRole::Xdg(xdg) => SurfaceRoleV::Xdg(xdg),
        }
    }
}

/// A surface.
#[derive(Debug)]
pub struct Surface {
    pub wl: Handle,
    pub version: u32,
    pub role: SurfaceRole,
    pub cur: SurfaceState,
    pub pending: SurfaceState,
    pub pending_buffer: Option<Handle>,
    pub viewport: Option<usize>,
    pub buf_transform: Option<BufferTransform>,
    pub mapped: bool,
    pub configured: bool,
}

/// What a [`Surface`] says.
#[verifier::ext_equal]
pub struct SurfaceV {
    pub wl: Handle,
    pub version: u32,
    pub role: SurfaceRoleV,
    pub cur: SurfaceStateV,
    pub pending: SurfaceStateV,
    pub pending_buffer: Option<Handle>,
    pub viewport: Option<usize>,
    pub buf_transform: Option<BufferTransform>,
    pub mapped: bool,
    pub configured: bool,
}

impl View for Surface {
    type V = SurfaceV;

    open spec fn view(&self) -> SurfaceV {
        SurfaceV {
            wl: self.wl,
            version: self.version,
            role: self.role@,
            cur: self.cur@,
            pending: self.pending@,
            pending_buffer: self.pending_buffer,
            viewport: self.viewport,
            buf_transform: self.buf_transform,
            mapped: self.mapped,
            configured: self.configured,
        }
    }
}

impl SurfaceV {
    /// A surface that nothing was said of.
    pub open spec fn fresh(wl: Handle, version: u32) -> SurfaceV {
        SurfaceV {
            wl,
            version,
            role: SurfaceRoleV::NoRole,
            cur: no_state(),
            pending: no_state(),
            pending_buffer: None,
            viewport: None,
            buf_transform: None,
            mapped: false,
            configured: false,
        }
    }

    /// Whether the surface is used for something.
    pub open spec fn has_role(self) -> bool {
        self.role !is NoRole
    }

    /// How the committed buffer is laid out on the surface, or the rule that it breaks.
    pub open spec fn new_buf_transform(self) -> Result<Option<BufferTransform>, Error> {
        match self.cur.buffer {
            None => Ok(None),
            Some(b) => match buffer_transform(
                b.id,
                b.width,
                b.height,
                match self.cur.transform {
                    Some(t) => t,
                    None => Transform::Normal,
                },
                match self.cur.scale {
                    Some(s) => s,
                    None => 1,
                },
                self.cur.viewport_src,
                self.cur.viewport_dst,
            ) {
                Ok(t) => Ok(Some(t)),
                Err(e) => Err(e),
            },
        }
    }

    /// The surface after the state that waits in the cache of a subsurface has taken effect.
    pub open spec fn cache_applied(self) -> SurfaceV {
        match self.role {
            SurfaceRoleV::Subsurface(sub) => SurfaceV {
                cur: self.cur.with_applied(sub.cached_state),
                role: SurfaceRoleV::Subsurface(
                    SubsurfaceRoleV { cached_state: sub.cached_state.after_apply(), ..sub },
                ),
                ..self
            },
            _ => self,
        }
    }

    /// The buffers that are given back when the cache of a subsurface takes effect.
    pub open spec fn cache_unlocks(self) -> Seq<Action> {
        match self.role {
            SurfaceRoleV::Subsurface(sub) => self.cur.unlocked_by(sub.cached_state),
            _ => Seq::empty(),
        }
    }

    /// The window that the surface is, if it is one.
    pub open spec fn xdg(self) -> Option<XdgSurfaceRole> {
        match self.role {
            SurfaceRoleV::Xdg(xdg) => Some(xdg),
            _ => None,
        }
    }

    /// Whether the surface is a toplevel.
    pub open spec fn is_toplevel(self) -> bool {
        self.role matches SurfaceRoleV::Xdg(xdg) && xdg.specific is Toplevel
    }

    /// Whether the surface is a popup.
    pub open spec fn is_popup(self) -> bool {
        self.role matches SurfaceRoleV::Xdg(xdg) && xdg.specific is Popup
    }
}

impl Surface {
    /// A surface that nothing was said of.
    pub fn new(wl: Handle, version: u32) -> (r: Self)
        ensures
            r@ == SurfaceV::fresh(wl, version),
    {
        Self {
            wl,
            version,
            role: SurfaceRole::NoRole,
            cur: SurfaceState::new(),
            pending: SurfaceState::new(),
            pending_buffer: None,
            viewport: None,
            buf_transform: None,
            mapped: false,
            configured: false,
        }
    }

    /// Works out anew how the committed buffer is laid out on the surface.
    pub fn validate_and_update_buf_transform(&mut self) -> (r: Result<(), Error>)
        ensures
            match old(self)@.new_buf_transform() {
                Ok(t) => r is Ok && final(self)@ == (SurfaceV { buf_transform: t, ..old(self)@ }),
                Err(e) => r == Err::<(), Error>(e) && final(self)@ == old(self)@,
            },
    {
        match self.cur.buffer {
            Some(b) => {
                let transform = match self.cur.transform {
                    Some(t) => t,
                    None => Transform::Normal,
                };
                let scale: i32 = match self.cur.scale {
                    Some(s) => s,
                    None => 1,
                };
                match BufferTransform::new(
                    b.id,
                    b.width,
                    b.height,
                    transform,
                    scale,
                    self.cur.viewport_src,
                    self.cur.viewport_dst,
                ) {
                    Ok(t) => {
                        self.buf_transform = Some(t);
                        Ok(())
                    },
                    Err(e) => Err(e),
                }
            },
            None => {
                self.buf_transform = None;
                Ok(())
            },
        }
    }

    /// Lets the state that waits in the cache of a subsurface take effect.
    pub fn apply_own_cache(&mut self, actions: &mut Vec<Action>)
        ensures
            final(self)@ == old(self)@.cache_applied(),
            final(actions)@ == old(actions)@ + old(self)@.cache_unlocks(),
    {
        let ghost actions0 = actions@;
        match &mut self.role {
            SurfaceRole::Subsurface(sub) => {
                sub.cached_state.apply_to_and_clear(&mut self.cur, actions);
            },
            _ => {
                assert(actions@ =~= actions0 + old(self)@.cache_unlocks());
            },
        }
    }

    /// How the committed buffer is laid out on the surface.
    pub fn buf_transform(&self) -> (r: Option<BufferTransform>)
        ensures
            r == self.buf_transform,
    {
        self.buf_transform
    }

    /// Whether the surface is used for something.
    pub fn has_role(&self) -> (r: bool)
        ensures
            r == self@.has_role(),
    {
        !matches!(&self.role, SurfaceRole::NoRole)
    }

    /// The subsurface that the surface is, if it is one.
    pub fn get_subsurface(&self) -> (r: Option<&SubsurfaceRole>)
        ensures
            match self.role {
                SurfaceRole::Subsurface(sub) => r == Some(&sub),
                _ => r is None,
            },
    {
        match &self.role {
            SurfaceRole::Subsurface(sub) => Some(sub),
            _ => None,
        }
    }

    /// The window that the surface is, if it is one.
    pub fn get_xdg_surface(&self) -> (r: Option<&XdgSurfaceRole>)
        ensures
            match self@.xdg() {
                Some(xdg) => r == Some(&xdg),
                None => r is None,
            },
    {
        match &self.role {
            SurfaceRole::Xdg(xdg) => Some(xdg),
            _ => None,
        }
    }

    /// The window that the surface is, if it is a toplevel.
    pub fn get_xdg_toplevel(&self) -> (r: Option<&XdgSurfaceRole>)
        ensures
            r is Some == self@.is_toplevel(),
            self@.is_toplevel() ==> r == Some(&self@.xdg()->0),
    {
        match &self.role {
            SurfaceRole::Xdg(xdg) => match &xdg.specific {
                SpecificRole::Toplevel(_) => Some(xdg),
                _ => None,
            },
            _ => None,
        }
    }
}

} // verus!
