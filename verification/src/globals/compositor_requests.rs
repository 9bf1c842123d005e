//! Requests that create surfaces, set their state and build trees of subsurfaces.
use vstd::prelude::*;
use crate::error::Error;
use crate::globals::compositor::{
    region_view, CommittedBuffer, CommittedMaskBit, SubsurfaceRoleV, Surface,
    SurfaceRole, SurfaceRoleV, SurfaceStateV, SurfaceV,
};
use crate::globals::surfaces::{
    acyclic, cache_applied, cache_changed, effective_is_sync, is_child, layout_wf,
    lemma_same_links, links_wf, list_wf, ranked, same_links, surface_wf, surfaces_wf,
    surfaces_wf_but, up, Outcome, Ranking, Surfaces,
};
use crate::globals::xdg_shell::positioner::RawPositioner;
use crate::protocol::{Action, Fixed, Handle, Transform};
use crate::region::{Rect, Region};

verus! {

/// Surfaces and what belongs to them, of all clients.
#[derive(Debug)]
pub struct Compositor {
    pub surfaces: Surfaces,
    pub regions: Vec<Option<Region>>,
    pub xdg_positioners: Vec<Option<RawPositioner>>,
    pub viewporters: Vec<Option<usize>>,
}

/// What a [`Compositor`] says.
#[verifier::ext_equal]
pub struct CompositorV {
    pub surfaces: Seq<SurfaceV>,
    pub regions: Seq<Option<Set<(int, int)>>>,
    pub xdg_positioners: Seq<Option<RawPositioner>>,
    pub viewporters: Seq<Option<usize>>,
}

impl View for Compositor {
    type V = CompositorV;

    open spec fn view(&self) -> CompositorV {
        CompositorV {
            surfaces: self.surfaces@,
            regions: region_views(self.regions@),
            xdg_positioners: self.xdg_positioners@,
            viewporters: self.viewporters@,
        }
    }
}

/// The pixels of the regions in a list.
pub open spec fn region_views(regions: Seq<Option<Region>>) -> Seq<Option<Set<(int, int)>>> {
    regions.map_values(|r: Option<Region>| region_view(r))
}

/// What holds of the compositor between requests.
pub open spec fn compositor_wf(c: CompositorV) -> bool {
    &&& surfaces_wf(c.surfaces)
    &&& forall|v: int|
        0 <= v < c.viewporters.len() && (#[trigger] c.viewporters[v]) is Some ==> c.viewporters[v]->0 < c.surfaces.len()
    &&& forall|p: int|
        0 <= p < c.xdg_positioners.len() && (#[trigger] c.xdg_positioners[p]) is Some ==> c.xdg_positioners[p]->0.wf()
}

/// What comes of a request.
#[verifier::ext_equal]
pub struct CompositorOutcome {
    pub compositor: CompositorV,
    pub actions: Seq<Action>,
    pub result: Result<(), Error>,
}

/// Requests on a surface that set what the next commit applies.
#[derive(Debug, Clone, Copy, PartialEq, Eq, Structural)]
pub enum SurfaceRequest {
    Attach { buffer: Option<Handle>, x: i32, y: i32 },
    Damage,
    Frame(Handle),
    SetOpaqueRegion(Option<usize>),
    SetInputRegion(Option<usize>),
    SetBufferTransform(Transform),
    SetBufferScale(i32),
    DamageBuffer,
    Offset { x: i32, y: i32 },
}

/// Requests on a subsurface.
#[derive(Debug, Clone, Copy, PartialEq, Eq, Structural)]
pub enum SubsurfaceRequest {
    Destroy,
    SetPosition { x: i32, y: i32 },
    PlaceAbove(usize),
    PlaceBelow(usize),
    SetSync,
    SetDesync,
}

/// Requests on a region.
#[derive(Debug, Clone, Copy, PartialEq, Eq, Structural)]
pub enum RegionRequest {
    Destroy,
    Add(Rect),
    Subtract(Rect),
}

/// Requests on a viewport.
#[derive(Debug, Clone, Copy, PartialEq, Eq, Structural)]
pub enum ViewportRequest {
    Destroy,
    SetSource { x: Fixed, y: Fixed, width: Fixed, height: Fixed },
    SetDestination { width: i32, height: i32 },
}

impl SurfaceV {
    /// The surface with a part of its pending state marked as set.
    pub open spec fn with_pending(self, pending: SurfaceStateV, bit: CommittedMaskBit) -> SurfaceV {
        SurfaceV { pending: SurfaceStateV { mask: pending.mask.insert(bit), ..pending }, ..self }
    }

    /// The surface after a request that sets state for the next commit.
    pub open spec fn after_request(self, request: SurfaceRequest, regions: Seq<Option<Set<(int, int)>>>) -> Result<
        SurfaceV,
        Error,
    > {
        match request {
            SurfaceRequest::Attach { buffer, x, y } => if self.version >= 5 && (x != 0 || y != 0) {
                Err(Error::AttachOffset)
            } else {
                Ok(
                    SurfaceV { pending_buffer: buffer, ..self }.with_pending(self.pending, CommittedMaskBit::Buffer),
                )
            },
            SurfaceRequest::Damage => Ok(self),
            SurfaceRequest::Frame(cb) => Ok(
                self.with_pending(
                    SurfaceStateV { frame_cbs: self.pending.frame_cbs.push(cb), ..self.pending },
                    CommittedMaskBit::FrameCb,
                ),
            ),
            SurfaceRequest::SetOpaqueRegion(region) => Ok(
                self.with_pending(
                    SurfaceStateV {
                        opaque_region: match region {
                            Some(k) => regions[k as int],
                            None => None,
                        },
                        ..self.pending
                    },
                    CommittedMaskBit::OpaqueRegion,
                ),
            ),
            SurfaceRequest::SetInputRegion(region) => Ok(
                self.with_pending(
                    SurfaceStateV {
                        input_region: match region {
                            Some(k) => regions[k as int],
                            None => None,
                        },
                        ..self.pending
                    },
                    CommittedMaskBit::InputRegion,
                ),
            ),
            SurfaceRequest::SetBufferTransform(transform) => Ok(
                self.with_pending(
                    SurfaceStateV { transform: Some(transform), ..self.pending },
                    CommittedMaskBit::Transform,
                ),
            ),
            SurfaceRequest::SetBufferScale(scale) => Ok(
                self.with_pending(SurfaceStateV { scale: Some(scale), ..self.pending }, CommittedMaskBit::Scale),
            ),
            SurfaceRequest::DamageBuffer => Ok(self),
            SurfaceRequest::Offset { .. } => Ok(self),
        }
    }
}

impl SurfaceRequest {
    /// Whether the request is one that is supported: an older surface is not moved while a buffer is
    /// attached, and a named region exists.
    pub open spec fn supported(self, version: u32, regions: Seq<Option<Set<(int, int)>>>) -> bool {
        match self {
            SurfaceRequest::Attach { x, y, .. } => version >= 5 || (x == 0 && y == 0),
            SurfaceRequest::Offset { x, y } => x == 0 && y == 0,
            SurfaceRequest::SetOpaqueRegion(Some(k)) => k < regions.len() && regions[k as int] is Some,
            SurfaceRequest::SetInputRegion(Some(k)) => k < regions.len() && regions[k as int] is Some,
            _ => true,
        }
    }
}

/// Whether nothing but pending state that takes no part in the tree changed.
pub open spec fn quiet(a: SurfaceV, b: SurfaceV) -> bool {
    &&& b == SurfaceV { pending: b.pending, pending_buffer: b.pending_buffer, viewport: b.viewport, ..a }
    &&& b.pending.subsurfaces == a.pending.subsurfaces
    &&& b.pending.buffer == a.pending.buffer
}

/// A quiet change of one surface keeps what holds between requests, and how surfaces hang together.
pub proof fn lemma_quiet(s: Seq<SurfaceV>, i: int, x: SurfaceV)
    requires
        surfaces_wf(s),
        0 <= i < s.len(),
        quiet(s[i], x),
    ensures
        surfaces_wf(s.update(i, x)),
        same_links(s, s.update(i, x)),
{
    let t = s.update(i, x);
    assert forall|j: int| 0 <= j < t.len() implies #[trigger] surface_wf(t, j) by {
        assert(surface_wf(s, j));
        assert forall|k: int, c: int| is_child(s, k, c) implies is_child(t, k, c) by {}
    }
    assert forall|j: int| 0 <= j < s.len() implies up(s, j) == #[trigger] up(t, j) by {}
}

/// Where surfaces hang together as before, no surface hangs under itself if none did.
pub proof fn lemma_acyclic_kept(a: Seq<SurfaceV>, b: Seq<SurfaceV>)
    requires
        same_links(a, b),
        acyclic(a),
    ensures
        acyclic(b),
{
    let r = choose|r: Ranking| ranked(a, r);
    lemma_same_links(a, b, r);
}

impl Compositor {
    /// No surfaces.
    pub fn new() -> (r: Self)
        ensures
            r@ == (CompositorV {
                surfaces: Seq::empty(),
                regions: Seq::empty(),
                xdg_positioners: Seq::empty(),
                viewporters: Seq::empty(),
            }),
            compositor_wf(r@),
            acyclic(r@.surfaces),
    {
        let r = Self {
            surfaces: Surfaces { list: Vec::new() },
            regions: Vec::new(),
            xdg_positioners: Vec::new(),
            viewporters: Vec::new(),
        };
        proof {
            assert(r@.surfaces =~= Seq::<SurfaceV>::empty());
            assert(r@.regions =~= Seq::<Option<Set<(int, int)>>>::empty());
            assert(ranked(r@.surfaces, Ranking { rank: |i: int| 0nat, bound: 0 }));
        }
        r
    }

    /// Creates a surface for a client. The key of its handle is its place.
    pub fn create_surface(&mut self, client: crate::client::ClientId, version: u32) -> (r: usize)
        requires
            compositor_wf(old(self)@),
            old(self)@.surfaces.len() <= u64::MAX,
        ensures
            r == old(self)@.surfaces.len(),
            final(self)@ == (CompositorV {
                surfaces: old(self)@.surfaces.push(SurfaceV::fresh(Handle { client, key: r as u64 }, version)),
                ..old(self)@
            }),
            compositor_wf(final(self)@),
            acyclic(old(self)@.surfaces) ==> acyclic(final(self)@.surfaces),
    {
        let i: usize = self.surfaces.list.len();
        let wl = Handle { client, key: i as u64 };
        let ghost s = self@.surfaces;
        self.surfaces.list.push(Surface::new(wl, version));
        let ghost t = self@.surfaces;
        proof {
            assert(t =~= s.push(SurfaceV::fresh(wl, version)));
            assert forall|j: int| 0 <= j < t.len() implies #[trigger] surface_wf(t, j) by {
                if j < s.len() {
                    assert(surface_wf(s, j));
                    assert forall|k: int, c: int| is_child(s, k, c) implies is_child(t, k, c) by {}
                }
            }
            if acyclic(s) {
                let r = choose|r: Ranking| ranked(s, r);
                let r2 = Ranking {
                    rank: |j: int|
                        if j < s.len() {
                            r.of(j)
                        } else {
                            0nat
                        },
                    bound: r.bound,
                };
                assert forall|j: int|
                    #![trigger r2.of(j)]
                    0 <= j < t.len() implies r2.of(j) <= r2.bound && (up(t, j) matches Some(p) ==> 0 <= p < t.len()
                    && r2.of(p) < r2.of(j)) by {
                    if j < s.len() {
                        assert(r.of(j) <= r.bound);
                        assert(up(t, j) == up(s, j));
                    }
                }
                assert(ranked(t, r2));
            }
        }
        i
    }

    /// Creates an empty region.
    pub fn create_region(&mut self) -> (r: usize)
        ensures
            r == old(self)@.regions.len(),
            final(self)@ == (CompositorV {
                regions: old(self)@.regions.push(Some(Set::<(int, int)>::empty())),
                ..old(self)@
            }),
    {
        let k: usize = self.regions.len();
        self.regions.push(Some(Region::new()));
        assert(self@.regions =~= old(self)@.regions.push(Some(Set::<(int, int)>::empty())));
        k
    }

    /// Handles a request on a region.
    pub fn wl_region_cb(&mut self, k: usize, request: RegionRequest)
        requires
            k < old(self)@.regions.len(),
            old(self)@.regions[k as int] is Some,
        ensures
            final(self)@ == (CompositorV {
                regions: old(self)@.regions.update(
                    k as int,
                    match request {
                        RegionRequest::Destroy => None,
                        RegionRequest::Add(rect) => Some(old(self)@.regions[k as int]->0.union(rect.points())),
                        RegionRequest::Subtract(rect) => Some(
                            old(self)@.regions[k as int]->0.difference(rect.points()),
                        ),
                    },
                ),
                ..old(self)@
            }),
    {
        assert(self@.regions[k as int] == region_view(self.regions@[k as int]));
        match request {
            RegionRequest::Destroy => {
                self.regions[k] = None;
            },
            RegionRequest::Add(rect) => {
                if let Some(region) = &mut self.regions[k] {
                    region.union_rect(rect);
                }
            },
            RegionRequest::Subtract(rect) => {
                if let Some(region) = &mut self.regions[k] {
                    region.subtract_rect(rect);
                }
            },
        }
        assert(self@.regions =~= old(self)@.regions.update(
            k as int,
            match request {
                RegionRequest::Destroy => None,
                RegionRequest::Add(rect) => Some(old(self)@.regions[k as int]->0.union(rect.points())),
                RegionRequest::Subtract(rect) => Some(old(self)@.regions[k as int]->0.difference(rect.points())),
            },
        ));
    }

    /// A copy of a region.
    fn copy_region(&self, k: Option<usize>) -> (r: Option<Region>)
        requires
            k matches Some(k) ==> k < self@.regions.len() && self@.regions[k as int] is Some,
        ensures
            region_view(r) == match k {
                Some(k) => self@.regions[k as int],
                None => None,
            },
    {
        match k {
            None => None,
            Some(k) => {
                assert(self@.regions[k as int] == region_view(self.regions@[k as int]));
                match &self.regions[k] {
                    None => None,
                    Some(region) => Some(region.copy()),
                }
            },
        }
    }

    /// Handles a request on a surface that sets state for the next commit.
    pub fn set_surface_state(&mut self, i: usize, request: SurfaceRequest) -> (r: Result<(), Error>)
        requires
            compositor_wf(old(self)@),
            i < old(self)@.surfaces.len(),
            request.supported(old(self)@.surfaces[i as int].version, old(self)@.regions),
        ensures
            match old(self)@.surfaces[i as int].after_request(request, old(self)@.regions) {
                Ok(x) => r is Ok && final(self)@ == (CompositorV {
                    surfaces: old(self)@.surfaces.update(i as int, x),
                    ..old(self)@
                }),
                Err(e) => r == Err::<(), Error>(e) && final(self)@ == old(self)@,
            },
            compositor_wf(final(self)@),
            same_links(old(self)@.surfaces, final(self)@.surfaces),
    {
        let ghost s = self@.surfaces;
        let ghost x0 = s[i as int];
        match request {
            SurfaceRequest::Attach { buffer, x, y } => {
                if self.surfaces.list[i].version >= 5 && (x != 0 || y != 0) {
                    return Err(Error::AttachOffset);
                }
                self.surfaces.list[i].pending_buffer = buffer;
                self.surfaces.list[i].pending.mask.set(CommittedMaskBit::Buffer);
            },
            SurfaceRequest::Damage => {},
            SurfaceRequest::Frame(cb) => {
                self.surfaces.list[i].pending.frame_cbs.push(cb);
                self.surfaces.list[i].pending.mask.set(CommittedMaskBit::FrameCb);
            },
            SurfaceRequest::SetOpaqueRegion(k) => {
                let region = self.copy_region(k);
                self.surfaces.list[i].pending.opaque_region = region;
                self.surfaces.list[i].pending.mask.set(CommittedMaskBit::OpaqueRegion);
            },
            SurfaceRequest::SetInputRegion(k) => {
                let region = self.copy_region(k);
                self.surfaces.list[i].pending.input_region = region;
                self.surfaces.list[i].pending.mask.set(CommittedMaskBit::InputRegion);
            },
            SurfaceRequest::SetBufferTransform(transform) => {
                self.surfaces.list[i].pending.transform = Some(transform);
                self.surfaces.list[i].pending.mask.set(CommittedMaskBit::Transform);
            },
            SurfaceRequest::SetBufferScale(scale) => {
                self.surfaces.list[i].pending.scale = Some(scale);
                self.surfaces.list[i].pending.mask.set(CommittedMaskBit::Scale);
            },
            SurfaceRequest::DamageBuffer => {},
            SurfaceRequest::Offset { .. } => {},
        }
        proof {
            let x = x0.after_request(request, old(self)@.regions)->Ok_0;
            assert(self.surfaces.list@[i as int]@ == x);
            assert(self@.surfaces =~= s.update(i as int, x));
            lemma_quiet(s, i as int, x);
        }
        Ok(())
    }
}

impl SurfaceV {
    /// The surface when a commit begins: a buffer that was attached becomes pending state.
    pub open spec fn with_commit_buffer(self, buffer: Option<CommittedBuffer>) -> SurfaceV {
        if self.pending.mask.contains(CommittedMaskBit::Buffer) {
            SurfaceV { pending: SurfaceStateV { buffer, ..self.pending }, pending_buffer: None, ..self }
        } else {
            self
        }
    }

    /// The surface after its pending state became current.
    pub open spec fn pending_to_cur(self) -> SurfaceV {
        SurfaceV { cur: self.cur.with_applied(self.pending), pending: self.pending.after_apply(), ..self }
    }

    /// The subsurface after its pending state went into the cache.
    pub open spec fn pending_to_cache(self) -> SurfaceV {
        match self.role {
            SurfaceRoleV::Subsurface(sub) => SurfaceV {
                role: SurfaceRoleV::Subsurface(
                    SubsurfaceRoleV { cached_state: sub.cached_state.with_applied(self.pending), ..sub },
                ),
                pending: self.pending.after_apply(),
                ..self
            },
            _ => self,
        }
    }

    /// The buffers that are given back when the pending state goes into the cache.
    pub open spec fn pending_to_cache_unlocks(self) -> Seq<Action> {
        match self.role {
            SurfaceRoleV::Subsurface(sub) => sub.cached_state.unlocked_by(self.pending),
            _ => Seq::empty(),
        }
    }
}

/// What comes of committing the state of a surface, with the buffer that the renderer has for what
/// was attached: the state of a synchronized subsurface waits in its cache, all other state takes
/// effect, together with what waits in the caches of the subsurfaces.
pub open spec fn state_committed(s: Seq<SurfaceV>, i: int, buffer: Option<CommittedBuffer>) -> Outcome {
    let x = s[i].with_commit_buffer(buffer);
    if effective_is_sync(s, i) {
        Outcome {
            surfaces: s.update(i, x.pending_to_cache()),
            actions: x.pending_to_cache_unlocks(),
            result: Ok(()),
        }
    } else {
        let o = cache_applied(s.update(i, x.pending_to_cur()), i);
        Outcome { surfaces: o.surfaces, actions: x.cur.unlocked_by(x.pending) + o.actions, result: o.result }
    }
}

/// Whether a surface differs in state only: its handle, its links and what is known of it are the
/// same.
pub open spec fn state_changed(a: SurfaceV, b: SurfaceV) -> bool {
    &&& b == SurfaceV {
        cur: b.cur,
        pending: b.pending,
        pending_buffer: b.pending_buffer,
        buf_transform: b.buf_transform,
        role: b.role,
        ..a
    }
    &&& match (a.role, b.role) {
        (SurfaceRoleV::Subsurface(x), SurfaceRoleV::Subsurface(y)) => y == SubsurfaceRoleV {
            cached_state: y.cached_state,
            ..x
        },
        _ => a.role == b.role,
    }
}

/// Whether surfaces of one client differ in state only, and those of other clients in nothing.
pub open spec fn states_changed(a: Seq<SurfaceV>, b: Seq<SurfaceV>, client: crate::client::ClientId) -> bool {
    &&& a.len() == b.len()
    &&& forall|j: int| 0 <= j < a.len() ==> state_changed(a[j], #[trigger] b[j])
    &&& forall|j: int| 0 <= j < a.len() && a[j].wl.client != client ==> #[trigger] b[j] == a[j]
}

proof fn lemma_states_changed_links(a: Seq<SurfaceV>, b: Seq<SurfaceV>, client: crate::client::ClientId)
    requires
        states_changed(a, b, client),
    ensures
        same_links(a, b),
{
    assert forall|j: int| 0 <= j < a.len() implies up(a, j) == #[trigger] up(b, j) by {
        assert(state_changed(a[j], b[j]));
    }
}

/// Pending state that becomes current, or goes into the cache, keeps the links.
proof fn lemma_pending_moves(s: Seq<SurfaceV>, i: int, buffer: Option<CommittedBuffer>)
    requires
        surfaces_wf(s),
        0 <= i < s.len(),
    ensures
        surfaces_wf_but(s.update(i, s[i].with_commit_buffer(buffer).pending_to_cur()), i),
        states_changed(s, s.update(i, s[i].with_commit_buffer(buffer).pending_to_cur()), s[i].wl.client),
        s[i].role is Subsurface ==> {
            &&& surfaces_wf(s.update(i, s[i].with_commit_buffer(buffer).pending_to_cache()))
            &&& states_changed(s, s.update(i, s[i].with_commit_buffer(buffer).pending_to_cache()), s[i].wl.client)
        },
{
    let x = s[i].with_commit_buffer(buffer);
    let t = s.update(i, x.pending_to_cur());
    assert(surface_wf(s, i));
    assert forall|j: int| 0 <= j < t.len() implies #[trigger] links_wf(t, j) by {
        assert(surface_wf(s, j));
        assert forall|k: int, c: int| is_child(s, k, c) implies is_child(t, k, c) by {}
        assert(list_wf(t, j, s[j].cur.subsurfaces));
        assert(list_wf(t, j, s[j].pending.subsurfaces));
    }
    assert forall|j: int| 0 <= j < t.len() && j != i implies #[trigger] layout_wf(t[j]) by {
        assert(surface_wf(s, j));
    }
    if s[i].role is Subsurface {
        let u = s.update(i, x.pending_to_cache());
        assert forall|j: int| 0 <= j < u.len() implies #[trigger] surface_wf(u, j) by {
            assert(surface_wf(s, j));
            assert forall|k: int, c: int| is_child(s, k, c) implies is_child(u, k, c) by {}
            assert(list_wf(u, j, s[j].cur.subsurfaces));
            assert(list_wf(u, j, s[j].pending.subsurfaces));
        }
    }
}

impl Compositor {
    /// The buffer that the next commit of a surface applies: what the renderer is to be asked for.
    pub fn buffer_to_commit(&self, i: usize) -> (r: Option<Handle>)
        requires
            i < self@.surfaces.len(),
        ensures
            r == if self@.surfaces[i as int].pending.mask.contains(CommittedMaskBit::Buffer) {
                self@.surfaces[i as int].pending_buffer
            } else {
                None
            },
    {
        let surface = self.surfaces.get(i);
        if surface.pending.mask.contains(CommittedMaskBit::Buffer) {
            surface.pending_buffer
        } else {
            None
        }
    }

    /// Commits the state of a surface. `buffer` is what the renderer has for the attached buffer.
    /// Says whether the state took effect, so that the role of the surface is to be told.
    pub fn commit_surface_state(
        &mut self,
        i: usize,
        buffer: Option<CommittedBuffer>,
        actions: &mut Vec<Action>,
    ) -> (r: Result<bool, Error>)
        requires
            compositor_wf(old(self)@),
            acyclic(old(self)@.surfaces),
            i < old(self)@.surfaces.len(),
        ensures
            ({
                let o = state_committed(old(self)@.surfaces, i as int, buffer);
                &&& final(self)@ == (CompositorV { surfaces: o.surfaces, ..old(self)@ })
                &&& final(actions)@ == old(actions)@ + o.actions
                &&& match o.result {
                    Ok(_) => r == Ok::<bool, Error>(!effective_is_sync(old(self)@.surfaces, i as int)),
                    Err(e) => r == Err::<bool, Error>(e),
                }
            }),
            r is Ok ==> compositor_wf(final(self)@),
            acyclic(final(self)@.surfaces),
            states_changed(old(self)@.surfaces, final(self)@.surfaces, old(self)@.surfaces[i as int].wl.client),
    {
        let ghost s = self@.surfaces;
        let ghost a0 = actions@;
        let ghost client = s[i as int].wl.client;
        let ghost x = s[i as int].with_commit_buffer(buffer);
        proof {
            lemma_pending_moves(s, i as int, buffer);
        }
        let sync = self.surfaces.effective_is_sync(i);
        let surface = &mut self.surfaces.list[i];
        if surface.pending.mask.contains(CommittedMaskBit::Buffer) {
            surface.pending.buffer = buffer;
            surface.pending_buffer = None;
        }
        assert(surface@ == x);
        if sync {
            match &mut surface.role {
                SurfaceRole::Subsurface(sub) => {
                    surface.pending.apply_to_and_clear(&mut sub.cached_state, actions);
                },
                _ => {
                    assert(false);
                },
            }
            proof {
                assert(self@.surfaces =~= s.update(i as int, x.pending_to_cache()));
                lemma_states_changed_links(s, self@.surfaces, client);
                lemma_acyclic_kept(s, self@.surfaces);
            }
            Ok(false)
        } else {
            surface.pending.apply_to_and_clear(&mut surface.cur, actions);
            let ghost t = s.update(i as int, x.pending_to_cur());
            proof {
                assert(self@.surfaces =~= t);
                lemma_states_changed_links(s, t, client);
                lemma_acyclic_kept(s, t);
            }
            let r = self.surfaces.apply_cache(i, actions);
            proof {
                let o = cache_applied(t, i as int);
                assert(actions@ =~= a0 + (x.cur.unlocked_by(x.pending) + o.actions));
                assert forall|j: int| 0 <= j < s.len() implies state_changed(s[j], #[trigger] o.surfaces[j]) by {
                    assert(state_changed(s[j], t[j]));
                    assert(cache_changed(t[j], o.surfaces[j]));
                }
                assert forall|j: int| 0 <= j < s.len() && s[j].wl.client != client implies #[trigger] o.surfaces[j]
                    == s[j] by {
                    assert(t[j] == s[j]);
                    assert(cache_changed(t[j], o.surfaces[j]));
                }
            }
            match r {
                Ok(()) => Ok(true),
                Err(e) => Err(e),
            }
        }
    }
}

/// The surface after a request on its viewport, and whether the request is refused. What the request
/// is about counts as set even if it is refused.
pub open spec fn viewport_after(x: SurfaceV, request: ViewportRequest) -> (SurfaceV, Result<(), Error>) {
    match request {
        ViewportRequest::Destroy => (
            SurfaceV {
                pending: SurfaceStateV { viewport_src: None, viewport_dst: None, ..x.pending },
                viewport: None,
                ..x
            },
            Ok(()),
        ),
        ViewportRequest::SetSource { x: left, y: top, width, height } => {
            let marked = x.with_pending(x.pending, CommittedMaskBit::ViewportSrc);
            if left.0 == -256 && top.0 == -256 && width.0 == -256 && height.0 == -256 {
                (SurfaceV { pending: SurfaceStateV { viewport_src: None, ..marked.pending }, ..marked }, Ok(()))
            } else if left.0 >= 0 && top.0 >= 0 && width.0 > 0 && height.0 > 0 {
                (
                    SurfaceV {
                        pending: SurfaceStateV { viewport_src: Some((left, top, width, height)), ..marked.pending },
                        ..marked
                    },
                    Ok(()),
                )
            } else {
                (marked, Err(Error::InvalidViewportSrc))
            }
        },
        ViewportRequest::SetDestination { width, height } => if width == -1 && height == -1 {
            (
                x.with_pending(SurfaceStateV { viewport_dst: None, ..x.pending }, CommittedMaskBit::ViewportDst),
                Ok(()),
            )
        } else if width > 0 && height > 0 {
            (
                x.with_pending(
                    SurfaceStateV { viewport_dst: Some((width as u32, height as u32)), ..x.pending },
                    CommittedMaskBit::ViewportDst,
                ),
                Ok(()),
            )
        } else {
            (x, Err(Error::InvalidViewportDst))
        },
    }
}

impl Compositor {
    /// Gives a surface a viewport. A surface has at most one.
    pub fn get_viewport(&mut self, i: usize) -> (r: Result<usize, Error>)
        requires
            compositor_wf(old(self)@),
            i < old(self)@.surfaces.len(),
        ensures
            ({
                let s = old(self)@.surfaces;
                let v = old(self)@.viewporters.len() as usize;
                if s[i as int].viewport is Some {
                    &&& r == Err::<usize, Error>(Error::SurfaceHasViewport)
                    &&& final(self)@ == (CompositorV {
                        surfaces: s.update(i as int, SurfaceV { viewport: None, ..s[i as int] }),
                        ..old(self)@
                    })
                } else {
                    &&& r == Ok::<usize, Error>(v)
                    &&& final(self)@ == (CompositorV {
                        surfaces: s.update(i as int, SurfaceV { viewport: Some(v), ..s[i as int] }),
                        viewporters: old(self)@.viewporters.push(Some(i)),
                        ..old(self)@
                    })
                }
            }),
            compositor_wf(final(self)@),
            same_links(old(self)@.surfaces, final(self)@.surfaces),
    {
        let ghost s = self@.surfaces;
        let had = self.surfaces.list[i].viewport.take();
        let ghost gone = SurfaceV { viewport: None, ..s[i as int] };
        proof {
            assert(self.surfaces.list@[i as int]@ == gone);
            assert(self@.surfaces =~= s.update(i as int, gone));
            lemma_quiet(s, i as int, gone);
        }
        if had.is_some() {
            return Err(Error::SurfaceHasViewport);
        }
        let v: usize = self.viewporters.len();
        self.surfaces.list[i].viewport = Some(v);
        self.viewporters.push(Some(i));
        proof {
            let x = SurfaceV { viewport: Some(v), ..s[i as int] };
            assert(self.surfaces.list@[i as int]@ == x);
            assert(self@.surfaces =~= s.update(i as int, x));
            lemma_quiet(s, i as int, x);
        }
        Ok(v)
    }

    /// Handles a request on a viewport.
    pub fn wp_viewport_cb(&mut self, v: usize, request: ViewportRequest) -> (r: Result<(), Error>)
        requires
            compositor_wf(old(self)@),
            v < old(self)@.viewporters.len(),
        ensures
            match old(self)@.viewporters[v as int] {
                None => r == Err::<(), Error>(Error::ViewportSurfaceDead) && final(self)@ == old(self)@,
                Some(i) => {
                    let s = old(self)@.surfaces;
                    let (x, result) = viewport_after(s[i as int], request);
                    &&& r == result
                    &&& final(self)@ == (CompositorV {
                        surfaces: s.update(i as int, x),
                        viewporters: if request is Destroy {
                            old(self)@.viewporters.update(v as int, None)
                        } else {
                            old(self)@.viewporters
                        },
                        ..old(self)@
                    })
                },
            },
            compositor_wf(final(self)@),
            same_links(old(self)@.surfaces, final(self)@.surfaces),
    {
        let ghost s = self@.surfaces;
        let i: usize = match self.viewporters[v] {
            None => return Err(Error::ViewportSurfaceDead),
            Some(i) => i,
        };
        let ghost after = viewport_after(s[i as int], request);
        let mut result: Result<(), Error> = Ok(());
        match request {
            ViewportRequest::Destroy => {
                self.surfaces.list[i].pending.viewport_src = None;
                self.surfaces.list[i].pending.viewport_dst = None;
                self.surfaces.list[i].viewport = None;
                self.viewporters[v] = None;
            },
            ViewportRequest::SetSource { x, y, width, height } => {
                self.surfaces.list[i].pending.mask.set(CommittedMaskBit::ViewportSrc);
                if x.0 == -256 && y.0 == -256 && width.0 == -256 && height.0 == -256 {
                    self.surfaces.list[i].pending.viewport_src = None;
                } else if x.0 >= 0 && y.0 >= 0 && width.0 > 0 && height.0 > 0 {
                    self.surfaces.list[i].pending.viewport_src = Some((x, y, width, height));
                } else {
                    result = Err(Error::InvalidViewportSrc);
                }
            },
            ViewportRequest::SetDestination { width, height } => {
                if width == -1 && height == -1 {
                    self.surfaces.list[i].pending.mask.set(CommittedMaskBit::ViewportDst);
                    self.surfaces.list[i].pending.viewport_dst = None;
                } else if width > 0 && height > 0 {
                    self.surfaces.list[i].pending.mask.set(CommittedMaskBit::ViewportDst);
                    self.surfaces.list[i].pending.viewport_dst = Some((width as u32, height as u32));
                } else {
                    result = Err(Error::InvalidViewportDst);
                }
            },
        }
        proof {
            assert(self.surfaces.list@[i as int]@ == after.0);
            assert(self@.surfaces =~= s.update(i as int, after.0));
            lemma_quiet(s, i as int, after.0);
        }
        result
    }
}

/// Whatever is set on a surface or its viewport, what is shown stays the same until a commit.
pub proof fn law_nothing_shown_before_commit(
    x: SurfaceV,
    request: SurfaceRequest,
    viewport_request: ViewportRequest,
    regions: Seq<Option<Set<(int, int)>>>,
)
    ensures
        x.after_request(request, regions) matches Ok(y) ==> y.cur == x.cur && y.buf_transform == x.buf_transform && y.role
            == x.role && y.mapped == x.mapped,
        viewport_after(x, viewport_request).0.cur == x.cur,
        viewport_after(x, viewport_request).0.buf_transform == x.buf_transform,
{
}

/// What is committed to a synchronized subsurface changes nothing that is shown, on any surface, until
/// its parent is committed.
pub proof fn law_synchronized_commit_waits(s: Seq<SurfaceV>, i: int, buffer: Option<CommittedBuffer>, j: int)
    requires
        0 <= i < s.len(),
        0 <= j < s.len(),
        effective_is_sync(s, i),
    ensures
        state_committed(s, i, buffer).result is Ok,
        state_committed(s, i, buffer).surfaces[j].cur == s[j].cur,
        state_committed(s, i, buffer).surfaces[j].buf_transform == s[j].buf_transform,
{
}

} // verus!
