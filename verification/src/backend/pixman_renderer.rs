//! Which buffers the software renderer holds, and for how long.
use vstd::prelude::*;

use std::collections::HashMap;

use crate::backend::{next_id, BufferId};
use crate::globals::compositor::CommittedBuffer;
use crate::globals::shm::ShmBufferSpec;
use crate::protocol::{Action, Handle};
use crate::region::{Rect, Region};

verus! {

broadcast use vstd::std_specs::hash::group_hash_axioms;

/// A pool of shared memory.
#[derive(Debug, Clone, Copy, PartialEq, Eq, Structural)]
pub struct ShmPool {
    pub size: usize,
    pub refcnt: usize,
    /// Whether the client still has the object of the pool.
    pub alive: bool,
}

/// What the pixels of a buffer are.
#[derive(Debug, Clone, Copy, PartialEq, Eq, Structural)]
pub enum BufferKind {
    Shm { spec: ShmBufferSpec, resource: Option<Handle> },
    Argb8Texture { width: u32, height: u32 },
    SinglePix { resource: Option<Handle> },
}

/// A buffer that the renderer holds.
#[derive(Debug, Clone, Copy, PartialEq, Eq, Structural)]
pub struct Buffer {
    pub locks: u32,
    pub kind: BufferKind,
}

impl Buffer {
    /// The object of the client that the buffer belongs to, if it still exists.
    pub open spec fn resource(self) -> Option<Handle> {
        match self.kind {
            BufferKind::Shm { resource, .. } => resource,
            BufferKind::Argb8Texture { .. } => None,
            BufferKind::SinglePix { resource } => resource,
        }
    }

    /// Whether the pixels of the buffer are in a pool.
    pub open spec fn uses(self, pool: u64) -> bool {
        self.kind matches BufferKind::Shm { spec, .. } && spec.pool.key == pool
    }

    /// The size of the buffer.
    pub open spec fn size(self) -> (u32, u32) {
        match self.kind {
            BufferKind::Shm { spec, .. } => (spec.width, spec.height),
            BufferKind::Argb8Texture { width, height } => (width, height),
            BufferKind::SinglePix { .. } => (1, 1),
        }
    }

    /// The buffer without the object of the client.
    pub open spec fn orphaned(self) -> Buffer {
        Buffer {
            kind: match self.kind {
                BufferKind::Shm { spec, .. } => BufferKind::Shm { spec, resource: None },
                BufferKind::SinglePix { .. } => BufferKind::SinglePix { resource: None },
                kind => kind,
            },
            ..self
        }
    }
}

/// The buffers and pools of the renderer. Buffer and pool objects are known by their keys, which
/// differ for all objects of a kind, whichever client they belong to.
#[derive(Debug)]
pub struct RendererStateImp {
    shm_pools: HashMap<u64, ShmPool>,
    resource_mapping: HashMap<u64, BufferId>,
    buffers: HashMap<u64, Buffer>,
    next_id: u64,
}

/// What a [`RendererStateImp`] says.
#[verifier::ext_equal]
pub struct RendererV {
    pub pools: Map<u64, ShmPool>,
    pub resources: Map<u64, BufferId>,
    pub buffers: Map<u64, Buffer>,
    pub next_id: u64,
}

impl View for RendererStateImp {
    type V = RendererV;

    closed spec fn view(&self) -> RendererV {
        RendererV {
            pools: self.shm_pools@,
            resources: self.resource_mapping@,
            buffers: self.buffers@,
            next_id: self.next_id,
        }
    }
}

/// The buffers whose pixels are in a pool.
pub open spec fn users(buffers: Map<u64, Buffer>, pool: u64) -> Set<u64> {
    buffers.dom().filter(|id: u64| buffers[id].uses(pool))
}

/// What holds of the renderer between calls.
pub open spec fn renderer_wf(r: RendererV) -> bool {
    // no buffer has the number 0
    renderer_wf_but(r, 0)
}

/// What holds of the renderer while one buffer may wait to be dropped.
pub open spec fn renderer_wf_but(r: RendererV, waiting: u64) -> bool {
    &&& r.buffers.dom().finite()
    &&& 1 <= r.next_id
    // a buffer object leads to the buffer that leads back to it
    &&& forall|k: u64| #[trigger]
        r.resources.contains_key(k) ==> {
            &&& r.buffers.contains_key(r.resources[k].0)
            &&& r.buffers[r.resources[k].0].resource() matches Some(h) && h.key == k
        }
    // every buffer whose object exists is found by it
    &&& forall|id: u64| #[trigger]
        r.buffers.contains_key(id) ==> {
            &&& 1 <= id < r.next_id
            &&& (r.buffers[id].resource() matches Some(h) ==> r.resources.contains_key(h.key) && r.resources[h.key].0 == id)
            // what nobody has a use for is gone
            &&& (r.buffers[id].resource() is None && id != waiting ==> r.buffers[id].locks > 0)
        }
    // a pool counts the buffers in it, and lives as long as its object or a buffer
    &&& forall|p: u64| #[trigger]
        r.pools.contains_key(p) ==> {
            &&& r.pools[p].refcnt == users(r.buffers, p).len()
            &&& (!r.pools[p].alive ==> r.pools[p].refcnt > 0)
        }
}

/// Whether a buffer's pool, if it has one, is there.
pub open spec fn pool_there(r: RendererV, id: u64) -> bool {
    r.buffers[id].kind matches BufferKind::Shm { spec, .. } ==> r.pools.contains_key(spec.pool.key)
}

/// The pool after one buffer less is in it, or nothing if neither a buffer nor the client needs it.
pub open spec fn pool_left(pools: Map<u64, ShmPool>, pool: u64) -> Map<u64, ShmPool> {
    let p = pools[pool];
    let refcnt = (p.refcnt - 1) as usize;
    if !p.alive && refcnt == 0 {
        pools.remove(pool)
    } else {
        pools.insert(pool, ShmPool { refcnt, ..p })
    }
}

impl RendererV {
    /// The renderer with a new pool.
    pub open spec fn with_pool(self, pool: Handle, size: usize) -> RendererV {
        RendererV { pools: self.pools.insert(pool.key, ShmPool { size, refcnt: 0, alive: true }), ..self }
    }

    /// The renderer after the client gave up the object of a pool.
    pub open spec fn pool_destroyed(self, pool: Handle) -> RendererV {
        let p = self.pools[pool.key];
        RendererV {
            pools: if p.refcnt == 0 {
                self.pools.remove(pool.key)
            } else {
                self.pools.insert(pool.key, ShmPool { alive: false, ..p })
            },
            ..self
        }
    }

    /// The renderer with a new buffer in a pool.
    pub open spec fn with_shm_buffer(self, spec: ShmBufferSpec, resource: Handle) -> RendererV {
        let p = self.pools[spec.pool.key];
        RendererV {
            pools: self.pools.insert(spec.pool.key, ShmPool { refcnt: (p.refcnt + 1) as usize, ..p }),
            resources: self.resources.insert(resource.key, BufferId(self.next_id)),
            buffers: self.buffers.insert(
                self.next_id,
                Buffer { locks: 0, kind: BufferKind::Shm { spec, resource: Some(resource) } },
            ),
            next_id: (self.next_id + 1) as u64,
        }
    }

    /// The renderer with a new texture.
    pub open spec fn with_texture(self, width: u32, height: u32) -> RendererV {
        RendererV {
            buffers: self.buffers.insert(
                self.next_id,
                Buffer { locks: 1, kind: BufferKind::Argb8Texture { width, height } },
            ),
            next_id: (self.next_id + 1) as u64,
            ..self
        }
    }

    /// The renderer with a new buffer of one pixel.
    pub open spec fn with_single_pix(self, resource: Handle) -> RendererV {
        RendererV {
            resources: self.resources.insert(resource.key, BufferId(self.next_id)),
            buffers: self.buffers.insert(
                self.next_id,
                Buffer { locks: 0, kind: BufferKind::SinglePix { resource: Some(resource) } },
            ),
            next_id: (self.next_id + 1) as u64,
            ..self
        }
    }

    /// The renderer after a buffer that nobody has a use for was dropped.
    pub open spec fn dropped(self, id: u64) -> RendererV {
        RendererV {
            buffers: self.buffers.remove(id),
            pools: match self.buffers[id].kind {
                BufferKind::Shm { spec, .. } => pool_left(self.pools, spec.pool.key),
                _ => self.pools,
            },
            ..self
        }
    }

    /// The renderer with another number of locks on a buffer.
    pub open spec fn with_locks(self, id: u64, locks: u32) -> RendererV {
        RendererV { buffers: self.buffers.insert(id, Buffer { locks, ..self.buffers[id] }), ..self }
    }

    /// What is sent when a buffer is committed.
    pub open spec fn commit_events(self, resource: Handle) -> Seq<Action> {
        if self.buffers[self.resources[resource.key].0].kind is SinglePix {
            seq![Action::BufferRelease { buffer: resource }]
        } else {
            Seq::empty()
        }
    }

    /// The renderer after one use of a buffer ended. A buffer that nobody has a use for is dropped.
    pub open spec fn unlocked(self, id: u64) -> RendererV {
        let locks = (self.buffers[id].locks - 1) as u32;
        if locks == 0 && self.buffers[id].resource() is None {
            self.with_locks(id, 0).dropped(id)
        } else {
            self.with_locks(id, locks)
        }
    }

    /// What is sent when one use of a buffer ends: the client may write to shared memory again.
    pub open spec fn unlock_events(self, id: u64) -> Seq<Action> {
        match self.buffers[id].kind {
            BufferKind::Shm { resource: Some(buffer), .. } if self.buffers[id].locks == 1 => seq![
                Action::BufferRelease { buffer },
            ],
            _ => Seq::empty(),
        }
    }

    /// The renderer after the client gave up the object of a buffer.
    pub open spec fn resource_destroyed(self, resource: Handle) -> RendererV {
        let id = self.resources[resource.key].0;
        let r = RendererV {
            resources: self.resources.remove(resource.key),
            buffers: self.buffers.insert(id, self.buffers[id].orphaned()),
            ..self
        };
        if self.buffers[id].locks == 0 {
            r.dropped(id)
        } else {
            r
        }
    }

    /// The renderer after the client gave up the objects of several buffers.
    pub open spec fn resources_destroyed(self, resources: Seq<Handle>) -> RendererV
        decreases resources.len(),
    {
        if resources.len() == 0 {
            self
        } else {
            self.resources_destroyed(resources.drop_last()).resource_destroyed(resources.last())
        }
    }

    /// The renderer without several pools.
    pub open spec fn pools_removed(self, pools: Seq<Handle>) -> RendererV
        decreases pools.len(),
    {
        if pools.len() == 0 {
            self
        } else {
            let r = self.pools_removed(pools.drop_last());
            RendererV { pools: r.pools.remove(pools.last().key), ..r }
        }
    }
}

/// The renderer after a pool grew. A pool never shrinks.
pub open spec fn pool_resized(r: RendererV, pool: Handle, size: i32) -> RendererV {
    let p = r.pools[pool.key];
    if size > 0 && size > p.size {
        RendererV { pools: r.pools.insert(pool.key, ShmPool { size: size as usize, ..p }), ..r }
    } else {
        r
    }
}

proof fn lemma_users_insert(buffers: Map<u64, Buffer>, id: u64, b: Buffer, pool: u64)
    requires
        buffers.dom().finite(),
        !buffers.contains_key(id),
    ensures
        users(buffers.insert(id, b), pool).len() == users(buffers, pool).len() + if b.uses(pool) {
            1nat
        } else {
            0nat
        },
{
    let after = buffers.insert(id, b);
    buffers.dom().lemma_len_filter(|i: u64| buffers[i].uses(pool));
    if b.uses(pool) {
        assert(users(after, pool) =~= users(buffers, pool).insert(id));
    } else {
        assert(users(after, pool) =~= users(buffers, pool));
    }
}

proof fn lemma_users_remove(buffers: Map<u64, Buffer>, id: u64, pool: u64)
    requires
        buffers.dom().finite(),
        buffers.contains_key(id),
    ensures
        users(buffers, pool).len() == users(buffers.remove(id), pool).len() + if buffers[id].uses(pool) {
            1nat
        } else {
            0nat
        },
{
    let rest = buffers.remove(id);
    assert(rest.insert(id, buffers[id]) =~= buffers);
    lemma_users_insert(rest, id, buffers[id], pool);
}

proof fn lemma_users_same(a: Map<u64, Buffer>, b: Map<u64, Buffer>, pool: u64)
    requires
        a.dom() == b.dom(),
        forall|id: u64| #[trigger] a.contains_key(id) ==> b[id].uses(pool) == a[id].uses(pool),
    ensures
        users(b, pool) == users(a, pool),
{
    assert(users(b, pool) =~= users(a, pool)) by {
        assert forall|id: u64| users(b, pool).contains(id) == users(a, pool).contains(id) by {
            if a.contains_key(id) {
            }
        }
    }
}

/// Whether a pool object was never seen.
pub open spec fn fresh_pool(r: RendererV, pool: Handle) -> bool {
    &&& !r.pools.contains_key(pool.key)
    &&& forall|id: u64| #[trigger] r.buffers.contains_key(id) ==> !r.buffers[id].uses(pool.key)
}

/// A buffer with a new number that no object led to yet.
proof fn lemma_added_wf(r: RendererV, b: Buffer)
    requires
        renderer_wf(r),
        r.next_id < u64::MAX,
        b.resource() matches Some(h) ==> !r.resources.contains_key(h.key),
        b.resource() is None ==> b.locks > 0,
        b.kind matches BufferKind::Shm { spec, .. } ==> r.pools.contains_key(spec.pool.key)
            && r.pools[spec.pool.key].refcnt < usize::MAX,
    ensures
        renderer_wf(
            RendererV {
                pools: match b.kind {
                    BufferKind::Shm { spec, .. } => r.pools.insert(
                        spec.pool.key,
                        ShmPool { refcnt: (r.pools[spec.pool.key].refcnt + 1) as usize, ..r.pools[spec.pool.key] },
                    ),
                    _ => r.pools,
                },
                resources: match b.resource() {
                    Some(h) => r.resources.insert(h.key, BufferId(r.next_id)),
                    None => r.resources,
                },
                buffers: r.buffers.insert(r.next_id, b),
                next_id: (r.next_id + 1) as u64,
            },
        ),
{
    let after = r.buffers.insert(r.next_id, b);
    assert(!r.buffers.contains_key(r.next_id));
    assert forall|p: u64| users(after, p).len() == #[trigger] users(r.buffers, p).len() + if b.uses(p) {
        1nat
    } else {
        0nat
    } by {
        lemma_users_insert(r.buffers, r.next_id, b, p);
    }
    assert forall|p: u64| #[trigger] users(after, p).len() == users(r.buffers, p).len() + if b.uses(p) {
        1nat
    } else {
        0nat
    } by {
        assert(users(r.buffers, p).len() >= 0);
    }
}

/// Another number of locks changes nothing else.
proof fn lemma_locks_wf(r: RendererV, id: u64, locks: u32)
    requires
        renderer_wf(r),
        r.buffers.contains_key(id),
    ensures
        renderer_wf_but(r.with_locks(id, locks), id),
        locks > 0 || r.buffers[id].resource() is Some ==> renderer_wf(r.with_locks(id, locks)),
{
    let after = r.with_locks(id, locks);
    assert(after.buffers.dom() =~= r.buffers.dom());
    assert forall|p: u64| #[trigger] users(after.buffers, p) == users(r.buffers, p) by {
        lemma_users_same(r.buffers, after.buffers, p);
    }
}

/// Dropping the buffer that waits for it.
proof fn lemma_dropped_wf(r: RendererV, id: u64)
    requires
        renderer_wf_but(r, id),
        r.buffers.contains_key(id),
        r.buffers[id].resource() is None,
        pool_there(r, id),
    ensures
        renderer_wf(r.dropped(id)),
        r.buffers[id].kind matches BufferKind::Shm { spec, .. } ==> r.pools[spec.pool.key].refcnt >= 1,
{
    let rest = r.buffers.remove(id);
    assert forall|p: u64| #[trigger]
        users(rest, p).len() + (if r.buffers[id].uses(p) {
            1nat
        } else {
            0nat
        }) == users(r.buffers, p).len() by {
        lemma_users_remove(r.buffers, id, p);
    }
    if let BufferKind::Shm { spec, .. } = r.buffers[id].kind {
        assert(users(rest, spec.pool.key).len() >= 0);
    }
}

/// The object of a buffer is gone.
proof fn lemma_orphaned_wf(r: RendererV, key: u64)
    requires
        renderer_wf(r),
        r.resources.contains_key(key),
    ensures
        ({
            let id = r.resources[key].0;
            let after = RendererV {
                resources: r.resources.remove(key),
                buffers: r.buffers.insert(id, r.buffers[id].orphaned()),
                ..r
            };
            &&& renderer_wf_but(after, id)
            &&& (r.buffers[id].locks > 0 ==> renderer_wf(after))
        }),
{
    let id = r.resources[key].0;
    let buffers = r.buffers.insert(id, r.buffers[id].orphaned());
    assert(buffers.dom() =~= r.buffers.dom());
    assert forall|p: u64| #[trigger] users(buffers, p) == users(r.buffers, p) by {
        lemma_users_same(r.buffers, buffers, p);
    }
}

/// The pool of a buffer stays when another buffer is given up.
pub proof fn law_pool_kept(r: RendererV, resource: Handle, other: u64)
    requires
        renderer_wf(r),
        r.resources.contains_key(resource.key),
        r.buffers.contains_key(other),
        r.resources[resource.key].0 != other,
        pool_there(r, other),
    ensures
        r.resource_destroyed(resource).buffers.contains_key(other),
        r.resource_destroyed(resource).buffers[other] == r.buffers[other],
        pool_there(r.resource_destroyed(resource), other),
{
    let id = r.resources[resource.key].0;
    if let BufferKind::Shm { spec, .. } = r.buffers[other].kind {
        let p = spec.pool.key;
        if r.buffers[id].uses(p) {
            lemma_users_remove(r.buffers, id, p);
            lemma_users_remove(r.buffers.remove(id), other, p);
        }
    }
}

/// A buffer in use stays as long as it is in use, whatever the client gives up.
pub proof fn law_buffer_in_use_stays(r: RendererV, resource: Handle, id: u64)
    requires
        renderer_wf(r),
        r.resources.contains_key(resource.key),
        r.buffers.contains_key(id),
        r.buffers[id].locks > 0,
    ensures
        r.resource_destroyed(resource).buffers.contains_key(id),
        r.resource_destroyed(resource).buffers[id].locks == r.buffers[id].locks,
        r.resource_destroyed(resource).buffers[id].size() == r.buffers[id].size(),
{
}

/// A client that gives up a buffer before its last use ends, or after it, ends up with the same.
pub proof fn law_give_up_before_or_after(r: RendererV, resource: Handle)
    requires
        renderer_wf(r),
        r.resources.contains_key(resource.key),
        r.buffers[r.resources[resource.key].0].locks == 1,
    ensures
        r.resource_destroyed(resource).unlocked(r.resources[resource.key].0) == r.unlocked(
            r.resources[resource.key].0,
        ).resource_destroyed(resource),
{
    let id = r.resources[resource.key].0;
    let a = r.resource_destroyed(resource).unlocked(id);
    let b = r.unlocked(id).resource_destroyed(resource);
    assert(a.buffers =~= b.buffers);
    assert(a.resources =~= b.resources);
    assert(a.pools =~= b.pools);
}

impl RendererStateImp {
    /// A renderer that holds nothing.
    pub fn new() -> (r: Self)
        ensures
            r@ == (RendererV { pools: Map::empty(), resources: Map::empty(), buffers: Map::empty(), next_id: 1 }),
            renderer_wf(r@),
    {
        let r = Self {
            shm_pools: HashMap::new(),
            resource_mapping: HashMap::new(),
            buffers: HashMap::new(),
            next_id: 1,
        };
        assert(r@.buffers.dom() =~= Set::<u64>::empty());
        r
    }

    /// Adds a pool.
    pub fn add_pool(&mut self, pool: Handle, size: usize)
        requires
            renderer_wf(old(self)@),
            fresh_pool(old(self)@, pool),
        ensures
            final(self)@ == old(self)@.with_pool(pool, size),
            renderer_wf(final(self)@),
    {
        self.shm_pools.insert(pool.key, ShmPool { size, refcnt: 0, alive: true });
        proof {
            let u = users(self@.buffers, pool.key);
            assert(u =~= Set::<u64>::empty());
        }
    }

    /// Changes the size of a pool. A pool only grows.
    pub fn resize_pool(&mut self, pool: Handle, size: i32)
        requires
            renderer_wf(old(self)@),
            old(self)@.pools.contains_key(pool.key),
        ensures
            final(self)@ == pool_resized(old(self)@, pool, size),
            renderer_wf(final(self)@),
    {
        let p: ShmPool = *self.shm_pools.get(&pool.key).unwrap();
        if size > 0 && size as usize > p.size {
            self.shm_pools.insert(pool.key, ShmPool { size: size as usize, ..p });
        }
    }

    /// Ends the object of a pool. The pool stays while a buffer is in it.
    pub fn destroy_pool(&mut self, pool: Handle)
        requires
            renderer_wf(old(self)@),
            old(self)@.pools.contains_key(pool.key),
        ensures
            final(self)@ == old(self)@.pool_destroyed(pool),
            renderer_wf(final(self)@),
    {
        let p: ShmPool = *self.shm_pools.get(&pool.key).unwrap();
        if p.refcnt == 0 {
            self.shm_pools.remove(&pool.key);
        } else {
            self.shm_pools.insert(pool.key, ShmPool { alive: false, ..p });
        }
    }

    /// Forgets a pool of a client that is gone.
    pub fn remove_pool(&mut self, pool: Handle)
        ensures
            final(self)@ == (RendererV { pools: old(self)@.pools.remove(pool.key), ..old(self)@ }),
            renderer_wf(old(self)@) ==> renderer_wf(final(self)@),
    {
        self.shm_pools.remove(&pool.key);
    }

    /// Makes a texture, which is in use at once.
    pub fn create_argb8_texture(&mut self, width: u32, height: u32) -> (id: BufferId)
        requires
            renderer_wf(old(self)@),
            old(self)@.next_id < u64::MAX,
        ensures
            id.0 == old(self)@.next_id,
            final(self)@ == old(self)@.with_texture(width, height),
            renderer_wf(final(self)@),
    {
        let b = Buffer { locks: 1, kind: BufferKind::Argb8Texture { width, height } };
        proof {
            lemma_added_wf(self@, b);
        }
        let id = next_id(&mut self.next_id);
        self.buffers.insert(id, b);
        BufferId(id)
    }

    /// Makes a buffer in a pool.
    pub fn create_shm_buffer(&mut self, spec: ShmBufferSpec, resource: Handle)
        requires
            renderer_wf(old(self)@),
            old(self)@.next_id < u64::MAX,
            old(self)@.pools.contains_key(spec.pool.key),
            old(self)@.pools[spec.pool.key].refcnt < usize::MAX,
            !old(self)@.resources.contains_key(resource.key),
        ensures
            final(self)@ == old(self)@.with_shm_buffer(spec, resource),
            renderer_wf(final(self)@),
    {
        let b = Buffer { locks: 0, kind: BufferKind::Shm { spec, resource: Some(resource) } };
        proof {
            lemma_added_wf(self@, b);
        }
        let p: ShmPool = *self.shm_pools.get(&spec.pool.key).unwrap();
        self.shm_pools.insert(spec.pool.key, ShmPool { refcnt: p.refcnt + 1, ..p });
        let id = next_id(&mut self.next_id);
        self.resource_mapping.insert(resource.key, BufferId(id));
        self.buffers.insert(id, b);
    }

    /// Makes a buffer of one pixel.
    pub fn create_single_pix_buffer(&mut self, resource: Handle) -> (id: BufferId)
        requires
            renderer_wf(old(self)@),
            old(self)@.next_id < u64::MAX,
            !old(self)@.resources.contains_key(resource.key),
        ensures
            id.0 == old(self)@.next_id,
            final(self)@ == old(self)@.with_single_pix(resource),
            renderer_wf(final(self)@),
    {
        let b = Buffer { locks: 0, kind: BufferKind::SinglePix { resource: Some(resource) } };
        proof {
            lemma_added_wf(self@, b);
        }
        let id = next_id(&mut self.next_id);
        self.resource_mapping.insert(resource.key, BufferId(id));
        self.buffers.insert(id, b);
        BufferId(id)
    }

    /// Takes one more use of the buffer that an object leads to. A buffer of one pixel is released
    /// at once, because its pixel was copied.
    pub fn buffer_commited(&mut self, resource: Handle, actions: &mut Vec<Action>) -> (id: BufferId)
        requires
            renderer_wf(old(self)@),
            old(self)@.resources.contains_key(resource.key),
            old(self)@.buffers[old(self)@.resources[resource.key].0].locks < u32::MAX,
        ensures
            id == old(self)@.resources[resource.key],
            final(self)@ == old(self)@.with_locks(id.0, (old(self)@.buffers[id.0].locks + 1) as u32),
            final(actions)@ == old(actions)@ + old(self)@.commit_events(resource),
            renderer_wf(final(self)@),
    {
        let id: BufferId = *self.resource_mapping.get(&resource.key).unwrap();
        let b: Buffer = *self.buffers.get(&id.0).unwrap();
        proof {
            lemma_locks_wf(self@, id.0, (b.locks + 1) as u32);
        }
        let ghost a0 = actions@;
        if let BufferKind::SinglePix { .. } = b.kind {
            actions.push(Action::BufferRelease { buffer: resource });
        }
        assert(actions@ =~= a0 + self@.commit_events(resource));
        self.buffers.insert(id.0, Buffer { locks: b.locks + 1, ..b });
        id
    }

    /// A pool, as long as it is there.
    pub fn shm_pool(&self, pool: Handle) -> (r: Option<ShmPool>)
        ensures
            r == (if self@.pools.contains_key(pool.key) {
                Some(self@.pools[pool.key])
            } else {
                None
            }),
    {
        match self.shm_pools.get(&pool.key) {
            Some(p) => Some(*p),
            None => None,
        }
    }

    /// A buffer, as long as it is there.
    pub fn buffer(&self, id: BufferId) -> (r: Option<Buffer>)
        ensures
            r == (if self@.buffers.contains_key(id.0) {
                Some(self@.buffers[id.0])
            } else {
                None
            }),
    {
        match self.buffers.get(&id.0) {
            Some(b) => Some(*b),
            None => None,
        }
    }

    /// The size of a buffer.
    pub fn get_buffer_size(&self, id: BufferId) -> (r: (u32, u32))
        requires
            self@.buffers.contains_key(id.0),
        ensures
            r == self@.buffers[id.0].size(),
    {
        let b: Buffer = *self.buffers.get(&id.0).unwrap();
        match b.kind {
            BufferKind::Shm { spec, .. } => (spec.width, spec.height),
            BufferKind::Argb8Texture { width, height } => (width, height),
            BufferKind::SinglePix { .. } => (1, 1),
        }
    }

    /// Takes a use of the buffer that a commit shows, and says what the surface has to know of it.
    pub fn commit_buffer(&mut self, resource: Handle, actions: &mut Vec<Action>) -> (r: CommittedBuffer)
        requires
            renderer_wf(old(self)@),
            old(self)@.resources.contains_key(resource.key),
            old(self)@.buffers[old(self)@.resources[resource.key].0].locks < u32::MAX,
        ensures
            r.id == old(self)@.resources[resource.key],
            (r.width, r.height) == old(self)@.buffers[r.id.0].size(),
            final(self)@ == old(self)@.with_locks(r.id.0, (old(self)@.buffers[r.id.0].locks + 1) as u32),
            final(actions)@ == old(actions)@ + old(self)@.commit_events(resource),
            renderer_wf(final(self)@),
    {
        let id = self.buffer_commited(resource, actions);
        let size = self.get_buffer_size(id);
        CommittedBuffer { id, width: size.0, height: size.1 }
    }

    /// Ends one use of a buffer.
    pub fn buffer_unlock(&mut self, id: BufferId, actions: &mut Vec<Action>)
        requires
            renderer_wf(old(self)@),
            old(self)@.buffers.contains_key(id.0),
            old(self)@.buffers[id.0].locks > 0,
            pool_there(old(self)@, id.0),
        ensures
            final(self)@ == old(self)@.unlocked(id.0),
            final(actions)@ == old(actions)@ + old(self)@.unlock_events(id.0),
            renderer_wf(final(self)@),
    {
        let b: Buffer = *self.buffers.get(&id.0).unwrap();
        let ghost a0 = actions@;
        let ghost r0 = self@;
        proof {
            lemma_locks_wf(r0, id.0, (b.locks - 1) as u32);
        }
        self.buffers.insert(id.0, Buffer { locks: b.locks - 1, ..b });
        assert(self@ =~= r0.with_locks(id.0, (b.locks - 1) as u32));
        if b.locks == 1 {
            match b.kind {
                BufferKind::Shm { resource: Some(buffer), .. } => {
                    actions.push(Action::BufferRelease { buffer });
                },
                BufferKind::SinglePix { resource: Some(_) } => {},
                _ => {
                    self.drop_buffer(id);
                },
            }
        }
        assert(actions@ =~= a0 + r0.unlock_events(id.0));
    }

    /// Ends the object of a buffer. The buffer stays while it is in use.
    pub fn buffer_resource_destroyed(&mut self, resource: Handle)
        requires
            renderer_wf(old(self)@),
            old(self)@.resources.contains_key(resource.key),
            pool_there(old(self)@, old(self)@.resources[resource.key].0),
        ensures
            final(self)@ == old(self)@.resource_destroyed(resource),
            renderer_wf(final(self)@),
    {
        let ghost r0 = self@;
        proof {
            lemma_orphaned_wf(r0, resource.key);
        }
        let id: BufferId = *self.resource_mapping.get(&resource.key).unwrap();
        self.resource_mapping.remove(&resource.key);
        let b: Buffer = *self.buffers.get(&id.0).unwrap();
        let kind = match b.kind {
            BufferKind::Shm { spec, .. } => BufferKind::Shm { spec, resource: None },
            BufferKind::SinglePix { .. } => BufferKind::SinglePix { resource: None },
            kind => kind,
        };
        self.buffers.insert(id.0, Buffer { kind, ..b });
        assert(self@.buffers =~= r0.buffers.insert(id.0, b.orphaned()));
        if b.locks == 0 {
            self.drop_buffer(id);
        }
    }

    /// Forgets a buffer that nobody has a use for, and its pool if that has no use either.
    fn drop_buffer(&mut self, id: BufferId)
        requires
            renderer_wf_but(old(self)@, id.0),
            old(self)@.buffers.contains_key(id.0),
            old(self)@.buffers[id.0].resource() is None,
            pool_there(old(self)@, id.0),
        ensures
            final(self)@ == old(self)@.dropped(id.0),
            renderer_wf(final(self)@),
    {
        proof {
            lemma_dropped_wf(self@, id.0);
        }
        let b: Buffer = *self.buffers.get(&id.0).unwrap();
        self.buffers.remove(&id.0);
        if let BufferKind::Shm { spec, .. } = b.kind {
            let p: ShmPool = *self.shm_pools.get(&spec.pool.key).unwrap();
            let refcnt: usize = p.refcnt - 1;
            if !p.alive && refcnt == 0 {
                self.shm_pools.remove(&spec.pool.key);
            } else {
                self.shm_pools.insert(spec.pool.key, ShmPool { refcnt, ..p });
            }
        }
    }
}

/// Where the pixels of a buffer are in its pool: the first byte and the number of bytes, if the pool
/// holds all of them.
pub fn pixel_range(spec: ShmBufferSpec, size: usize) -> (r: Option<(usize, usize)>)
    ensures
        r == (if spec.offset + spec.stride * spec.height <= size {
            Some((spec.offset as usize, (spec.stride * spec.height) as usize))
        } else {
            None
        }),
{
    proof {
        assert(spec.stride * spec.height <= 0xffff_ffff * 0xffff_ffff) by (nonlinear_arith)
            requires
                spec.stride <= 0xffff_ffff,
                spec.height <= 0xffff_ffff,
        ;
        assert(spec.stride * spec.height >= 0) by (nonlinear_arith)
            requires
                spec.stride >= 0,
                spec.height >= 0,
        ;
    }
    let bytes: u128 = spec.stride as u128 * spec.height as u128;
    if spec.offset as u128 + bytes <= size as u128 {
        Some((spec.offset as usize, bytes as usize))
    } else {
        None
    }
}

/// How pixels are drawn over those that are there.
#[derive(Debug, Clone, Copy, PartialEq, Eq, Structural)]
pub enum Operation {
    /// They take their place.
    Src,
    /// They are blended with them.
    Over,
}

/// How a buffer is drawn: it is not blended if it is drawn in full and no pixel of it is transparent.
pub fn buffer_operation(opaque_region: Option<&Region>, full: bool, width: i32, height: i32) -> (r: Operation)
    ensures
        r == (if full && (opaque_region matches Some(region) && {
            let rect = Rect { x: 0, y: 0, width, height };
            rect.good() && rect.points().subset_of(region@)
        }) {
            Operation::Src
        } else {
            Operation::Over
        }),
{
    match opaque_region {
        Some(region) => if full && region.contains_rectangle(Rect { x: 0, y: 0, width, height }) {
            Operation::Src
        } else {
            Operation::Over
        },
        None => Operation::Over,
    }
}

/// A buffer is there until its last use has ended and its object is gone. With the end of the last use of a buffer in
/// shared memory its client is told once that it is free. Other buffers stay as they are.
pub proof fn law_buffer_is_there_while_it_is_used(r: RendererV, id: u64, other: u64)
    requires
        r.buffers.contains_key(id),
        r.buffers[id].locks > 0,
        other != id,
    ensures
        ({
            let b = r.buffers[id];
            let after = r.unlocked(id);
            let last = b.locks == 1;
            let object = match b.kind {
                BufferKind::Shm { resource, .. } => resource,
                BufferKind::SinglePix { resource } => resource,
                BufferKind::Argb8Texture { .. } => None,
            };
            &&& after.buffers.contains_key(id) == !(last && object is None)
            &&& after.buffers.contains_key(id) ==> after.buffers[id] == (Buffer { locks: (b.locks - 1) as u32, ..b })
            &&& r.unlock_events(id) == if last && b.kind is Shm && object is Some {
                seq![Action::BufferRelease { buffer: object->0 }]
            } else {
                Seq::empty()
            }
            &&& after.buffers.contains_key(other) == r.buffers.contains_key(other)
            &&& r.buffers.contains_key(other) ==> after.buffers[other] == r.buffers[other]
            &&& after.resources == r.resources
        }),
{
}

/// To take one more use of a buffer and to end it changes nothing.
pub proof fn law_use_and_end(r: RendererV, id: u64)
    requires
        r.buffers.contains_key(id),
        r.buffers[id].locks < u32::MAX,
        r.buffers[id].locks > 0 || r.buffers[id].resource() is Some,
    ensures
        r.with_locks(id, (r.buffers[id].locks + 1) as u32).unlocked(id) == r,
{
    assert(r.with_locks(id, (r.buffers[id].locks + 1) as u32).unlocked(id).buffers =~= r.buffers);
}

/// A new buffer has the size that it was made with and nobody uses it, but for a texture, which is used at once.
pub proof fn law_new_buffers(r: RendererV, spec: ShmBufferSpec, resource: Handle, width: u32, height: u32)
    ensures
        r.with_shm_buffer(spec, resource).buffers[r.next_id].size() == (spec.width, spec.height),
        r.with_shm_buffer(spec, resource).buffers[r.next_id].locks == 0,
        r.with_shm_buffer(spec, resource).resources[resource.key].0 == r.next_id,
        r.with_single_pix(resource).buffers[r.next_id].size() == (1u32, 1u32),
        r.with_single_pix(resource).buffers[r.next_id].locks == 0,
        r.with_single_pix(resource).resources[resource.key].0 == r.next_id,
        r.with_texture(width, height).buffers[r.next_id].size() == (width, height),
        r.with_texture(width, height).buffers[r.next_id].locks == 1,
{
}

} // verus!
