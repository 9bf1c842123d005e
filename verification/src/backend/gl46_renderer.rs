//! Which textures the OpenGL renderer holds, and how quads are gathered into draw calls.
use vstd::prelude::*;
use std::collections::HashMap;
use crate::backend::pixman_renderer::ShmPool;
use crate::backend::{next_id, BufferId};
use crate::draw::ScreenRect;
use crate::eglgbm::egl::EglDisplay;
use crate::eglgbm::{entry_views, law_modifier_added, modifier_added, modifiers_of, supports, table_wf, FormatModsV, FormatTable, Fourcc};
use crate::globals::shm::ShmBufferSpec;
use crate::protocol::{Action, Handle};

verus! {

broadcast use vstd::std_specs::hash::group_hash_axioms;

/// A texture and the number that OpenGL knows it by.
#[derive(Debug, Clone, Copy, PartialEq, Eq, Structural)]
pub struct Texture {
    pub gl_name: u32,
    pub width: u32,
    pub height: u32,
    pub locks: u32,
    /// The buffer object of the client, if the texture shows memory of the client.
    pub resource: Option<Handle>,
}

/// The colour of a buffer of one pixel. Each channel goes from nothing to all that there are numbers.
#[derive(Debug, Clone, Copy, PartialEq, Eq, Structural)]
pub struct Rgba {
    pub r: u32,
    pub g: u32,
    pub b: u32,
    pub a: u32,
}

/// The textures, buffers and pools of the renderer. Buffer and pool objects are known by their
/// keys, which differ for all objects of a kind, whichever client they belong to.
#[derive(Debug)]
pub struct RendererStateImp {
    shm_pools: HashMap<u64, ShmPool>,
    shm_buffers: HashMap<u64, ShmBufferSpec>,
    dma_buffers: HashMap<u64, BufferId>,
    pix_buffers: HashMap<u64, Rgba>,
    textures: HashMap<u64, Texture>,
    next_id: u64,
}

/// What a [`RendererStateImp`] says.
#[verifier::ext_equal]
pub struct GlRendererV {
    pub pools: Map<u64, ShmPool>,
    pub shm_buffers: Map<u64, ShmBufferSpec>,
    pub dma_buffers: Map<u64, BufferId>,
    pub pix_buffers: Map<u64, Rgba>,
    pub textures: Map<u64, Texture>,
    pub next_id: u64,
}

impl View for RendererStateImp {
    type V = GlRendererV;

    closed spec fn view(&self) -> GlRendererV {
        GlRendererV {
            pools: self.shm_pools@,
            shm_buffers: self.shm_buffers@,
            dma_buffers: self.dma_buffers@,
            pix_buffers: self.pix_buffers@,
            textures: self.textures@,
            next_id: self.next_id,
        }
    }
}

/// The buffers in a pool.
pub open spec fn pool_users(buffers: Map<u64, ShmBufferSpec>, pool: u64) -> Set<u64> {
    buffers.dom().filter(|k: u64| buffers[k].pool.key == pool)
}

/// Whether buffers lead to textures that lead back to them, and a texture whose object is gone is in use.
pub open spec fn textures_wf(buffers: Map<u64, BufferId>, textures: Map<u64, Texture>, next_id: u64) -> bool {
    &&& forall|k: u64| #[trigger]
        buffers.contains_key(k) ==> {
            &&& textures.contains_key(buffers[k].0)
            &&& textures[buffers[k].0].resource matches Some(h) && h.key == k
        }
    &&& forall|id: u64| #[trigger]
        textures.contains_key(id) ==> {
            &&& id < next_id
            &&& (textures[id].resource matches Some(h) ==> buffers.contains_key(h.key) && buffers[h.key].0 == id)
            &&& (textures[id].resource is None ==> textures[id].locks > 0)
        }
}

/// Whether each buffer in shared memory has its pool, and each pool counts the buffers in it.
pub open spec fn pools_wf(pools: Map<u64, ShmPool>, buffers: Map<u64, ShmBufferSpec>) -> bool {
    &&& buffers.dom().finite()
    &&& forall|k: u64| #[trigger] buffers.contains_key(k) ==> pools.contains_key(buffers[k].pool.key)
    &&& forall|p: u64| #[trigger]
        pools.contains_key(p) ==> {
            &&& pools[p].refcnt == pool_users(buffers, p).len()
            &&& (!pools[p].alive ==> pools[p].refcnt > 0)
        }
}

/// What holds of the renderer between calls.
pub open spec fn gl_renderer_wf(r: GlRendererV) -> bool {
    &&& textures_wf(r.dma_buffers, r.textures, r.next_id)
    &&& pools_wf(r.pools, r.shm_buffers)
    // a buffer object is of one kind
    &&& forall|k: u64| #[trigger]
        r.dma_buffers.contains_key(k) ==> !r.shm_buffers.contains_key(k) && !r.pix_buffers.contains_key(k)
    &&& forall|k: u64| #[trigger] r.pix_buffers.contains_key(k) ==> !r.shm_buffers.contains_key(k)
}

/// Whether no buffer object has a key.
pub open spec fn fresh_buffer(r: GlRendererV, key: u64) -> bool {
    !r.shm_buffers.contains_key(key) && !r.dma_buffers.contains_key(key) && !r.pix_buffers.contains_key(key)
}

impl GlRendererV {
    /// The renderer with a new pool.
    pub open spec fn with_pool(self, pool: Handle, size: usize) -> GlRendererV {
        GlRendererV { pools: self.pools.insert(pool.key, ShmPool { size, refcnt: 0, alive: true }), ..self }
    }

    /// The renderer after a pool grew. A pool never shrinks.
    pub open spec fn pool_resized(self, pool: Handle, size: i32) -> GlRendererV {
        let p = self.pools[pool.key];
        if size > 0 && size > p.size {
            GlRendererV { pools: self.pools.insert(pool.key, ShmPool { size: size as usize, ..p }), ..self }
        } else {
            self
        }
    }

    /// The renderer after the client gave up the object of a pool.
    pub open spec fn pool_destroyed(self, pool: Handle) -> GlRendererV {
        let p = self.pools[pool.key];
        GlRendererV {
            pools: if p.refcnt == 0 {
                self.pools.remove(pool.key)
            } else {
                self.pools.insert(pool.key, ShmPool { alive: false, ..p })
            },
            ..self
        }
    }

    /// The texture that OpenGL has to give up when a buffer object ends.
    pub open spec fn destroyed_deletes(self, resource: Handle) -> Option<u32> {
        if self.dma_buffers.contains_key(resource.key) {
            Some(self.textures[self.dma_buffers[resource.key].0].gl_name)
        } else {
            None
        }
    }

    /// The size of a buffer that is copied when it is committed.
    pub open spec fn copied_size(self, resource: Handle) -> (u32, u32) {
        if self.pix_buffers.contains_key(resource.key) {
            (1, 1)
        } else {
            (self.shm_buffers[resource.key].width, self.shm_buffers[resource.key].height)
        }
    }

    /// The renderer after several buffer objects ended.
    pub open spec fn resources_destroyed(self, resources: Seq<Handle>) -> GlRendererV
        decreases resources.len(),
    {
        if resources.len() == 0 {
            self
        } else {
            self.resources_destroyed(resources.drop_last()).resource_destroyed(resources.last())
        }
    }

    /// The renderer without several pools.
    pub open spec fn pools_removed(self, pools: Seq<Handle>) -> GlRendererV
        decreases pools.len(),
    {
        if pools.len() == 0 {
            self
        } else {
            let r = self.pools_removed(pools.drop_last());
            GlRendererV { pools: r.pools.remove(pools.last().key), ..r }
        }
    }

    /// The renderer with one more texture.
    pub open spec fn with_texture(self, t: Texture) -> GlRendererV {
        GlRendererV {
            textures: self.textures.insert(self.next_id, t),
            next_id: (self.next_id + 1) as u64,
            ..self
        }
    }

    /// The renderer with a buffer object that leads to memory of the client.
    pub open spec fn with_dma_buffer(self, gl_name: u32, width: u32, height: u32, resource: Handle) -> GlRendererV {
        GlRendererV {
            dma_buffers: self.dma_buffers.insert(resource.key, BufferId(self.next_id)),
            ..self.with_texture(Texture { gl_name, width, height, locks: 0, resource: Some(resource) })
        }
    }

    /// The renderer with a buffer object in a pool.
    pub open spec fn with_shm_buffer(self, spec: ShmBufferSpec, resource: Handle) -> GlRendererV {
        let p = self.pools[spec.pool.key];
        GlRendererV {
            pools: self.pools.insert(spec.pool.key, ShmPool { refcnt: (p.refcnt + 1) as usize, ..p }),
            shm_buffers: self.shm_buffers.insert(resource.key, spec),
            ..self
        }
    }

    /// The renderer with another number of locks on a texture.
    pub open spec fn with_locks(self, id: u64, locks: u32) -> GlRendererV {
        GlRendererV { textures: self.textures.insert(id, Texture { locks, ..self.textures[id] }), ..self }
    }

    /// The renderer after one use of a texture ended. It stays if its object exists.
    pub open spec fn unlocked(self, id: u64) -> GlRendererV {
        let locks = (self.textures[id].locks - 1) as u32;
        if locks == 0 && self.textures[id].resource is None {
            GlRendererV { textures: self.textures.remove(id), ..self }
        } else {
            self.with_locks(id, locks)
        }
    }

    /// What is sent when one use of a texture ends.
    pub open spec fn unlock_events(self, id: u64) -> Seq<Action> {
        match self.textures[id].resource {
            Some(buffer) if self.textures[id].locks == 1 => seq![Action::BufferRelease { buffer }],
            _ => Seq::empty(),
        }
    }

    /// The texture that OpenGL has to give up when one use of it ends.
    pub open spec fn unlock_deletes(self, id: u64) -> Option<u32> {
        if self.textures[id].locks == 1 && self.textures[id].resource is None {
            Some(self.textures[id].gl_name)
        } else {
            None
        }
    }

    /// The renderer after a buffer object ended.
    pub open spec fn resource_destroyed(self, resource: Handle) -> GlRendererV {
        if self.dma_buffers.contains_key(resource.key) {
            GlRendererV {
                dma_buffers: self.dma_buffers.remove(resource.key),
                textures: self.textures.remove(self.dma_buffers[resource.key].0),
                ..self
            }
        } else if self.pix_buffers.contains_key(resource.key) {
            GlRendererV { pix_buffers: self.pix_buffers.remove(resource.key), ..self }
        } else {
            let pool = self.shm_buffers[resource.key].pool.key;
            let p = self.pools[pool];
            let refcnt = (p.refcnt - 1) as usize;
            GlRendererV {
                shm_buffers: self.shm_buffers.remove(resource.key),
                pools: if !p.alive && refcnt == 0 {
                    self.pools.remove(pool)
                } else {
                    self.pools.insert(pool, ShmPool { refcnt, ..p })
                },
                ..self
            }
        }
    }
}

proof fn lemma_pool_users_insert(buffers: Map<u64, ShmBufferSpec>, key: u64, spec: ShmBufferSpec, pool: u64)
    requires
        buffers.dom().finite(),
        !buffers.contains_key(key),
    ensures
        pool_users(buffers.insert(key, spec), pool).len() == pool_users(buffers, pool).len() + if spec.pool.key == pool {
            1nat
        } else {
            0nat
        },
{
    buffers.dom().lemma_len_filter(|k: u64| buffers[k].pool.key == pool);
    if spec.pool.key == pool {
        assert(pool_users(buffers.insert(key, spec), pool) =~= pool_users(buffers, pool).insert(key));
    } else {
        assert(pool_users(buffers.insert(key, spec), pool) =~= pool_users(buffers, pool));
    }
}

proof fn lemma_pool_users_remove(buffers: Map<u64, ShmBufferSpec>, key: u64, pool: u64)
    requires
        buffers.dom().finite(),
        buffers.contains_key(key),
    ensures
        pool_users(buffers, pool).len() == pool_users(buffers.remove(key), pool).len() + if buffers[key].pool.key
            == pool {
            1nat
        } else {
            0nat
        },
{
    assert(buffers.remove(key).insert(key, buffers[key]) =~= buffers);
    lemma_pool_users_insert(buffers.remove(key), key, buffers[key], pool);
}

/// A new texture that no object leads to is in use.
proof fn lemma_texture_added(r: GlRendererV, t: Texture)
    requires
        gl_renderer_wf(r),
        r.next_id < u64::MAX,
        t.resource is None,
        t.locks > 0,
    ensures
        gl_renderer_wf(r.with_texture(t)),
{
    let u = r.with_texture(t);
    assert forall|k: u64| #[trigger] u.dma_buffers.contains_key(k) implies {
        &&& u.textures.contains_key(u.dma_buffers[k].0)
        &&& u.textures[u.dma_buffers[k].0].resource matches Some(h) && h.key == k
    } by {
        assert(r.dma_buffers.contains_key(k));
        assert(r.textures.contains_key(r.dma_buffers[k].0));
    }
    assert(textures_wf(u.dma_buffers, u.textures, u.next_id));
}

/// A texture may be in use more or less often, as long as its object exists or it is in use.
proof fn lemma_locks_changed(r: GlRendererV, id: u64, locks: u32)
    requires
        gl_renderer_wf(r),
        r.textures.contains_key(id),
        locks > 0 || r.textures[id].resource is Some,
    ensures
        gl_renderer_wf(r.with_locks(id, locks)),
{
    let u = r.with_locks(id, locks);
    assert forall|k: u64| #[trigger] u.dma_buffers.contains_key(k) implies {
        &&& u.textures.contains_key(u.dma_buffers[k].0)
        &&& u.textures[u.dma_buffers[k].0].resource matches Some(h) && h.key == k
    } by {
        assert(r.dma_buffers.contains_key(k));
    }
    assert forall|i: u64| #[trigger] u.textures.contains_key(i) implies {
        &&& i < u.next_id
        &&& (u.textures[i].resource matches Some(h) ==> u.dma_buffers.contains_key(h.key) && u.dma_buffers[h.key].0 == i)
        &&& (u.textures[i].resource is None ==> u.textures[i].locks > 0)
    } by {
        assert(r.textures.contains_key(i));
    }
    assert(textures_wf(u.dma_buffers, u.textures, u.next_id));
}

impl RendererStateImp {
    /// A renderer that holds nothing.
    pub fn new() -> (r: Self)
        ensures
            r@ == (GlRendererV {
                pools: Map::empty(),
                shm_buffers: Map::empty(),
                dma_buffers: Map::empty(),
                pix_buffers: Map::empty(),
                textures: Map::empty(),
                next_id: 1,
            }),
            gl_renderer_wf(r@),
    {
        let r = Self {
            shm_pools: HashMap::new(),
            shm_buffers: HashMap::new(),
            dma_buffers: HashMap::new(),
            pix_buffers: HashMap::new(),
            textures: HashMap::new(),
            next_id: 1,
        };
        assert(r@.shm_buffers.dom() =~= Set::<u64>::empty());
        r
    }

    /// Adds a pool.
    pub fn add_pool(&mut self, pool: Handle, size: usize)
        requires
            gl_renderer_wf(old(self)@),
            !old(self)@.pools.contains_key(pool.key),
        ensures
            final(self)@ == old(self)@.with_pool(pool, size),
            gl_renderer_wf(final(self)@),
    {
        let ghost r0 = self@;
        assert(pool_users(self@.shm_buffers, pool.key) =~= Set::<u64>::empty());
        self.shm_pools.insert(pool.key, ShmPool { size, refcnt: 0, alive: true });
        assert(self@ == r0.with_pool(pool, size));
        assert(pools_wf(self@.pools, self@.shm_buffers));
    }

    /// Changes the size of a pool. A pool only grows.
    pub fn resize_pool(&mut self, pool: Handle, size: i32)
        requires
            gl_renderer_wf(old(self)@),
            old(self)@.pools.contains_key(pool.key),
        ensures
            final(self)@ == old(self)@.pool_resized(pool, size),
            gl_renderer_wf(final(self)@),
    {
        let p: ShmPool = *self.shm_pools.get(&pool.key).unwrap();
        if size > 0 && size as usize > p.size {
            self.shm_pools.insert(pool.key, ShmPool { size: size as usize, ..p });
        }
    }

    /// Ends the object of a pool. The pool stays while a buffer is in it.
    pub fn destroy_pool(&mut self, pool: Handle)
        requires
            gl_renderer_wf(old(self)@),
            old(self)@.pools.contains_key(pool.key),
        ensures
            final(self)@ == old(self)@.pool_destroyed(pool),
            gl_renderer_wf(final(self)@),
    {
        let ghost r0 = self@;
        let p: ShmPool = *self.shm_pools.get(&pool.key).unwrap();
        if p.refcnt == 0 {
            proof {
                assert forall|k: u64| #[trigger] self@.shm_buffers.contains_key(k) implies self@.shm_buffers[k].pool.key
                    != pool.key by {
                    if self@.shm_buffers[k].pool.key == pool.key {
                        lemma_pool_users_remove(self@.shm_buffers, k, pool.key);
                    }
                }
            }
            self.shm_pools.remove(&pool.key);
        } else {
            self.shm_pools.insert(pool.key, ShmPool { alive: false, ..p });
        }
        assert(self@ == r0.pool_destroyed(pool));
        assert(pools_wf(self@.pools, self@.shm_buffers));
    }

    /// Forgets a pool of a client that is gone. No buffer may be in it.
    pub fn remove_pool(&mut self, pool: Handle)
        requires
            gl_renderer_wf(old(self)@),
            forall|k: u64| #[trigger]
                old(self)@.shm_buffers.contains_key(k) ==> old(self)@.shm_buffers[k].pool.key != pool.key,
        ensures
            final(self)@ == (GlRendererV { pools: old(self)@.pools.remove(pool.key), ..old(self)@ }),
            gl_renderer_wf(final(self)@),
    {
        self.shm_pools.remove(&pool.key);
    }

    /// Makes a texture of pixels in memory, which is in use at once.
    pub fn create_argb8_texture(&mut self, gl_name: u32, width: u32, height: u32) -> (id: BufferId)
        requires
            gl_renderer_wf(old(self)@),
            old(self)@.next_id < u64::MAX,
        ensures
            id.0 == old(self)@.next_id,
            final(self)@ == old(self)@.with_texture(Texture { gl_name, width, height, locks: 1, resource: None }),
            gl_renderer_wf(final(self)@),
    {
        let ghost r0 = self@;
        let id = next_id(&mut self.next_id);
        let t = Texture { gl_name, width, height, locks: 1, resource: None };
        self.textures.insert(id, t);
        assert(self@ == r0.with_texture(t));
        proof {
            lemma_texture_added(r0, t);
        }
        BufferId(id)
    }

    /// Makes a buffer in a pool.
    pub fn create_shm_buffer(&mut self, spec: ShmBufferSpec, resource: Handle)
        requires
            gl_renderer_wf(old(self)@),
            old(self)@.pools.contains_key(spec.pool.key),
            old(self)@.pools[spec.pool.key].refcnt < usize::MAX,
            fresh_buffer(old(self)@, resource.key),
        ensures
            final(self)@ == old(self)@.with_shm_buffer(spec, resource),
            gl_renderer_wf(final(self)@),
    {
        let ghost before = self@.shm_buffers;
        let p: ShmPool = *self.shm_pools.get(&spec.pool.key).unwrap();
        self.shm_pools.insert(spec.pool.key, ShmPool { refcnt: p.refcnt + 1, ..p });
        self.shm_buffers.insert(resource.key, spec);
        assert forall|q: u64| #[trigger]
            pool_users(self@.shm_buffers, q).len() == pool_users(before, q).len() + if spec.pool.key == q {
                1nat
            } else {
                0nat
            } by {
            lemma_pool_users_insert(before, resource.key, spec, q);
        }
    }

    /// Makes a buffer of one pixel.
    pub fn create_single_pix_buffer(&mut self, color: Rgba, resource: Handle)
        requires
            gl_renderer_wf(old(self)@),
            fresh_buffer(old(self)@, resource.key),
        ensures
            final(self)@ == (GlRendererV {
                pix_buffers: old(self)@.pix_buffers.insert(resource.key, color),
                ..old(self)@
            }),
            gl_renderer_wf(final(self)@),
    {
        self.pix_buffers.insert(resource.key, color);
    }

    /// Makes a texture of a buffer in graphics memory.
    pub fn create_dma_buffer(&mut self, gl_name: u32, width: u32, height: u32, resource: Handle)
        requires
            gl_renderer_wf(old(self)@),
            old(self)@.next_id < u64::MAX,
            fresh_buffer(old(self)@, resource.key),
        ensures
            final(self)@ == old(self)@.with_dma_buffer(gl_name, width, height, resource),
            gl_renderer_wf(final(self)@),
    {
        let ghost r0 = self@;
        let id = next_id(&mut self.next_id);
        self.textures.insert(id, Texture { gl_name, width, height, locks: 0, resource: Some(resource) });
        self.dma_buffers.insert(resource.key, BufferId(id));
        assert forall|k: u64| #[trigger] r0.dma_buffers.contains_key(k) implies r0.dma_buffers[k].0 != id by {
            assert(r0.textures.contains_key(r0.dma_buffers[k].0));
        }
        assert(self@ =~= r0.with_dma_buffer(gl_name, width, height, resource));
    }

    /// A pool, as long as it is there.
    pub fn shm_pool(&self, pool: Handle) -> (r: Option<ShmPool>)
        ensures
            r == (if self@.pools.contains_key(pool.key) {
                Some(self@.pools[pool.key])
            } else {
                None
            }),
    {
        match self.shm_pools.get(&pool.key) {
            Some(p) => Some(*p),
            None => None,
        }
    }

    /// Whether a buffer is in graphics memory and in use.
    pub fn is_in_use(&self, resource: Handle) -> (r: bool)
        requires
            gl_renderer_wf(self@),
        ensures
            r == (self@.dma_buffers.contains_key(resource.key)
                && self@.textures[self@.dma_buffers[resource.key].0].locks > 0),
    {
        match self.dma_buffers.get(&resource.key) {
            Some(id) => {
                let t: Texture = *self.textures.get(&id.0).unwrap();
                t.locks > 0
            },
            None => false,
        }
    }

    /// A texture, as long as it is there.
    pub fn texture(&self, id: BufferId) -> (r: Option<Texture>)
        ensures
            r == (if self@.textures.contains_key(id.0) {
                Some(self@.textures[id.0])
            } else {
                None
            }),
    {
        match self.textures.get(&id.0) {
            Some(t) => Some(*t),
            None => None,
        }
    }

    /// The colour of a buffer of one pixel. A commit of it has to make a texture of that colour.
    pub fn single_pix(&self, resource: Handle) -> (r: Option<Rgba>)
        ensures
            r == (if self@.pix_buffers.contains_key(resource.key) {
                Some(self@.pix_buffers[resource.key])
            } else {
                None
            }),
    {
        match self.pix_buffers.get(&resource.key) {
            Some(color) => Some(*color),
            None => None,
        }
    }

    /// Where the pixels of a buffer in shared memory are, or nothing if it is in graphics memory.
    /// A commit of the former has to copy them into a new texture.
    pub fn shm_spec(&self, resource: Handle) -> (r: Option<ShmBufferSpec>)
        ensures
            r == (if self@.dma_buffers.contains_key(resource.key) || !self@.shm_buffers.contains_key(resource.key) {
                None
            } else {
                Some(self@.shm_buffers[resource.key])
            }),
    {
        if self.dma_buffers.contains_key(&resource.key) {
            return None;
        }
        match self.shm_buffers.get(&resource.key) {
            Some(spec) => Some(*spec),
            None => None,
        }
    }

    /// Takes a use of a buffer. One in shared memory or of one pixel was copied to the texture `gl_name` and
    /// is released at once.
    pub fn buffer_commited(&mut self, resource: Handle, gl_name: u32, actions: &mut Vec<Action>) -> (id: BufferId)
        requires
            gl_renderer_wf(old(self)@),
            old(self)@.next_id < u64::MAX,
            !fresh_buffer(old(self)@, resource.key),
            old(self)@.dma_buffers.contains_key(resource.key) ==> old(self)@.textures[old(
                self,
            )@.dma_buffers[resource.key].0].locks < u32::MAX,
        ensures
            old(self)@.dma_buffers.contains_key(resource.key) ==> {
                &&& id == old(self)@.dma_buffers[resource.key]
                &&& final(self)@ == old(self)@.with_locks(id.0, (old(self)@.textures[id.0].locks + 1) as u32)
                &&& final(actions)@ == old(actions)@
            },
            !old(self)@.dma_buffers.contains_key(resource.key) ==> {
                let (width, height) = old(self)@.copied_size(resource);
                &&& id.0 == old(self)@.next_id
                &&& final(self)@ == old(self)@.with_texture(
                    Texture { gl_name, width, height, locks: 1, resource: None },
                )
                &&& final(actions)@ == old(actions)@.push(Action::BufferRelease { buffer: resource })
            },
            gl_renderer_wf(final(self)@),
    {
        let ghost r0 = self@;
        if let Some(dma) = self.dma_buffers.get(&resource.key) {
            let id: BufferId = *dma;
            let t: Texture = *self.textures.get(&id.0).unwrap();
            self.textures.insert(id.0, Texture { locks: t.locks + 1, ..t });
            assert(self@ == r0.with_locks(id.0, (t.locks + 1) as u32));
            proof {
                lemma_locks_changed(r0, id.0, (t.locks + 1) as u32);
            }
            return id;
        }
        let (width, height): (u32, u32) = if self.pix_buffers.contains_key(&resource.key) {
            (1, 1)
        } else {
            let spec: ShmBufferSpec = *self.shm_buffers.get(&resource.key).unwrap();
            (spec.width, spec.height)
        };
        actions.push(Action::BufferRelease { buffer: resource });
        let id = next_id(&mut self.next_id);
        let t = Texture { gl_name, width, height, locks: 1, resource: None };
        self.textures.insert(id, t);
        assert(self@ == r0.with_texture(t));
        proof {
            lemma_texture_added(r0, t);
        }
        BufferId(id)
    }

    /// The size of a texture.
    pub fn get_buffer_size(&self, id: BufferId) -> (r: (u32, u32))
        requires
            self@.textures.contains_key(id.0),
        ensures
            r == (self@.textures[id.0].width, self@.textures[id.0].height),
    {
        let t: Texture = *self.textures.get(&id.0).unwrap();
        (t.width, t.height)
    }

    /// Takes one more use of a texture.
    pub fn buffer_lock(&mut self, id: BufferId)
        requires
            gl_renderer_wf(old(self)@),
            old(self)@.textures.contains_key(id.0),
            old(self)@.textures[id.0].locks < u32::MAX,
        ensures
            final(self)@ == old(self)@.with_locks(id.0, (old(self)@.textures[id.0].locks + 1) as u32),
            gl_renderer_wf(final(self)@),
    {
        let ghost r0 = self@;
        let t: Texture = *self.textures.get(&id.0).unwrap();
        self.textures.insert(id.0, Texture { locks: t.locks + 1, ..t });
        assert(self@ == r0.with_locks(id.0, (t.locks + 1) as u32));
        proof {
            lemma_locks_changed(r0, id.0, (t.locks + 1) as u32);
        }
    }

    /// Ends one use of a texture. Says which texture OpenGL has to give up, if any.
    pub fn buffer_unlock(&mut self, id: BufferId, actions: &mut Vec<Action>) -> (deleted: Option<u32>)
        requires
            gl_renderer_wf(old(self)@),
            old(self)@.textures.contains_key(id.0),
            old(self)@.textures[id.0].locks > 0,
        ensures
            final(self)@ == old(self)@.unlocked(id.0),
            final(actions)@ == old(actions)@ + old(self)@.unlock_events(id.0),
            deleted == old(self)@.unlock_deletes(id.0),
            gl_renderer_wf(final(self)@),
    {
        let ghost r0 = self@;
        let ghost a0 = actions@;
        let t: Texture = *self.textures.get(&id.0).unwrap();
        if t.locks == 1 && t.resource.is_none() {
            self.textures.remove(&id.0);
            assert(actions@ =~= a0 + r0.unlock_events(id.0));
            return Some(t.gl_name);
        }
        self.textures.insert(id.0, Texture { locks: t.locks - 1, ..t });
        assert(self@ == r0.with_locks(id.0, (t.locks - 1) as u32));
        proof {
            lemma_locks_changed(r0, id.0, (t.locks - 1) as u32);
        }
        if t.locks == 1 {
            if let Some(buffer) = t.resource {
                actions.push(Action::BufferRelease { buffer });
            }
        }
        assert(actions@ =~= a0 + r0.unlock_events(id.0));
        None
    }

    /// Ends a buffer object. Says which texture OpenGL has to give up, if any. A buffer in graphics
    /// memory must not be in use.
    pub fn buffer_resource_destroyed(&mut self, resource: Handle) -> (deleted: Option<u32>)
        requires
            gl_renderer_wf(old(self)@),
            !fresh_buffer(old(self)@, resource.key),
            old(self)@.dma_buffers.contains_key(resource.key) ==> old(self)@.textures[old(
                self,
            )@.dma_buffers[resource.key].0].locks == 0,
        ensures
            final(self)@ == old(self)@.resource_destroyed(resource),
            deleted == old(self)@.destroyed_deletes(resource),
            gl_renderer_wf(final(self)@),
    {
        if let Some(dma) = self.dma_buffers.get(&resource.key) {
            let id: BufferId = *dma;
            let t: Texture = *self.textures.get(&id.0).unwrap();
            self.dma_buffers.remove(&resource.key);
            self.textures.remove(&id.0);
            return Some(t.gl_name);
        }
        if self.pix_buffers.contains_key(&resource.key) {
            self.pix_buffers.remove(&resource.key);
            return None;
        }
        let ghost before = self@.shm_buffers;
        assert forall|q: u64| #[trigger]
            pool_users(before.remove(resource.key), q).len() + (if before[resource.key].pool.key == q {
                1nat
            } else {
                0nat
            }) == pool_users(before, q).len() by {
            lemma_pool_users_remove(before, resource.key, q);
        }
        let spec: ShmBufferSpec = *self.shm_buffers.get(&resource.key).unwrap();
        assert(pool_users(before.remove(resource.key), spec.pool.key).len() >= 0);
        self.shm_buffers.remove(&resource.key);
        let p: ShmPool = *self.shm_pools.get(&spec.pool.key).unwrap();
        let refcnt: usize = p.refcnt - 1;
        if !p.alive && refcnt == 0 {
            proof {
                assert forall|k: u64| #[trigger] self@.shm_buffers.contains_key(k) implies self@.shm_buffers[k].pool.key
                    != spec.pool.key by {
                    if self@.shm_buffers[k].pool.key == spec.pool.key {
                        lemma_pool_users_remove(self@.shm_buffers, k, spec.pool.key);
                    }
                }
            }
            self.shm_pools.remove(&spec.pool.key);
        } else {
            self.shm_pools.insert(spec.pool.key, ShmPool { refcnt, ..p });
        }
        None
    }
}

/// What a corner of a quad shows.
#[derive(Debug, Clone, Copy, PartialEq, Eq, Structural)]
pub enum Shade {
    /// The colour that the quad is filled with.
    Colour,
    /// A corner of the texture in a unit: left or right, top or bottom.
    Texture { unit: u32, right: bool, bottom: bool },
}

/// A corner of a triangle.
#[derive(Debug, Clone, Copy, PartialEq, Eq, Structural)]
pub struct Vert {
    pub x: i32,
    pub y: i32,
    pub shade: Shade,
}

/// The six corners of the two triangles that a rectangle is made of, from the left top to the
/// right bottom corner and back.
pub open spec fn quad(rect: ScreenRect, unit: Option<u32>) -> Seq<Vert> {
    let shade = |right: bool, bottom: bool| match unit {
        Some(unit) => Shade::Texture { unit, right, bottom },
        None => Shade::Colour,
    };
    let x2 = rect.x.wrapping_add(rect.width as i32);
    let y2 = rect.y.wrapping_add(rect.height as i32);
    seq![
        Vert { x: rect.x, y: rect.y, shade: shade(false, false) },
        Vert { x: x2, y: rect.y, shade: shade(true, false) },
        Vert { x: x2, y: y2, shade: shade(true, true) },
        Vert { x: x2, y: y2, shade: shade(true, true) },
        Vert { x: rect.x, y: y2, shade: shade(false, true) },
        Vert { x: rect.x, y: rect.y, shade: shade(false, false) },
    ]
}

/// The quads that wait to be drawn together, and the textures bound for them.
#[derive(Debug)]
pub struct Batch {
    verts: Vec<Vert>,
    bound_textures: u32,
    texture_units: u32,
}

/// What a [`Batch`] says.
#[verifier::ext_equal]
pub struct BatchV {
    pub verts: Seq<Vert>,
    pub bound_textures: u32,
    pub texture_units: u32,
}

impl View for Batch {
    type V = BatchV;

    closed spec fn view(&self) -> BatchV {
        BatchV { verts: self.verts@, bound_textures: self.bound_textures, texture_units: self.texture_units }
    }
}

/// What holds of a batch between calls: every corner shows a bound texture, no more textures are
/// bound than there are units, and a bound texture is shown.
pub open spec fn batch_wf(b: BatchV) -> bool {
    &&& b.texture_units > 0
    &&& b.bound_textures <= b.texture_units
    &&& b.bound_textures > 0 ==> b.verts.len() > 0
    &&& forall|i: int|
        0 <= i < b.verts.len() ==> ((#[trigger] b.verts[i]).shade matches Shade::Texture { unit, .. } ==> unit
            < b.bound_textures)
}

impl BatchV {
    /// The batch after it was drawn.
    pub open spec fn flushed(self) -> BatchV {
        if self.verts.len() > 0 {
            BatchV { verts: Seq::empty(), bound_textures: 0, ..self }
        } else {
            self
        }
    }
}

impl Batch {
    /// An empty batch for a number of texture units.
    pub fn new(texture_units: u32) -> (r: Self)
        requires
            texture_units > 0,
        ensures
            r@ == (BatchV { verts: Seq::empty(), bound_textures: 0, texture_units }),
            batch_wf(r@),
    {
        Self { verts: Vec::new(), bound_textures: 0, texture_units }
    }

    /// Takes the corners that wait to be drawn.
    pub fn flush_quads(&mut self) -> (r: Vec<Vert>)
        requires
            batch_wf(old(self)@),
        ensures
            r@ == old(self)@.verts,
            final(self)@ == old(self)@.flushed(),
            batch_wf(final(self)@),
    {
        let mut r: Vec<Vert> = Vec::new();
        std::mem::swap(&mut r, &mut self.verts);
        if r.len() > 0 {
            self.bound_textures = 0;
        }
        assert(self.verts@ =~= Seq::<Vert>::empty());
        r
    }

    fn push_quad(&mut self, rect: ScreenRect, unit: Option<u32>)
        ensures
            final(self)@ == (BatchV { verts: old(self)@.verts + quad(rect, unit), ..old(self)@ }),
    {
        let ghost before = self.verts@;
        let x2: i32 = rect.x.wrapping_add(rect.width as i32);
        let y2: i32 = rect.y.wrapping_add(rect.height as i32);
        let (a, b, c, d) = match unit {
            Some(unit) => (
                Shade::Texture { unit, right: false, bottom: false },
                Shade::Texture { unit, right: true, bottom: false },
                Shade::Texture { unit, right: true, bottom: true },
                Shade::Texture { unit, right: false, bottom: true },
            ),
            None => (Shade::Colour, Shade::Colour, Shade::Colour, Shade::Colour),
        };
        self.verts.push(Vert { x: rect.x, y: rect.y, shade: a });
        self.verts.push(Vert { x: x2, y: rect.y, shade: b });
        self.verts.push(Vert { x: x2, y: y2, shade: c });
        self.verts.push(Vert { x: x2, y: y2, shade: c });
        self.verts.push(Vert { x: rect.x, y: y2, shade: d });
        self.verts.push(Vert { x: rect.x, y: rect.y, shade: a });
        assert(self.verts@ =~= before + quad(rect, unit));
    }

    /// Adds a rectangle filled with a colour.
    pub fn render_rect(&mut self, rect: ScreenRect)
        requires
            batch_wf(old(self)@),
        ensures
            final(self)@ == (BatchV { verts: old(self)@.verts + quad(rect, None), ..old(self)@ }),
            batch_wf(final(self)@),
    {
        self.push_quad(rect, None);
    }

    /// Adds a rectangle that shows a texture. Gives the corners to draw first, if all units are
    /// taken, and the unit to bind the texture to.
    pub fn render_buffer(&mut self, rect: ScreenRect) -> (r: (Vec<Vert>, u32))
        requires
            batch_wf(old(self)@),
        ensures
            ({
                let full = old(self)@.bound_textures == old(self)@.texture_units;
                let b = if full {
                    old(self)@.flushed()
                } else {
                    old(self)@
                };
                &&& r.0@ == (if full {
                    old(self)@.verts
                } else {
                    Seq::empty()
                })
                &&& r.1 == b.bound_textures
                &&& final(self)@ == (BatchV {
                    verts: b.verts + quad(rect, Some(r.1)),
                    bound_textures: (r.1 + 1) as u32,
                    ..b
                })
            }),
            r.1 < final(self)@.texture_units,
            batch_wf(final(self)@),
    {
        let first = if self.bound_textures == self.texture_units {
            self.flush_quads()
        } else {
            Vec::new()
        };
        let unit: u32 = self.bound_textures;
        self.push_quad(rect, Some(unit));
        self.bound_textures = unit + 1;
        (first, unit)
    }
}

/// A table after the modifiers of a format that a display supports were added.
pub open spec fn supported_added(
    t: Seq<FormatModsV>,
    fourcc: Fourcc,
    mods: Seq<u64>,
    display: Seq<FormatModsV>,
) -> Seq<FormatModsV>
    decreases mods.len(),
{
    if mods.len() == 0 {
        t
    } else {
        let before = supported_added(t, fourcc, mods.drop_last(), display);
        if supports(display, fourcc, mods.last()) {
            modifier_added(before, fourcc, mods.last())
        } else {
            before
        }
    }
}

/// What is left of a table when all that a display does not support is taken out.
pub open spec fn table_filtered(t: Seq<FormatModsV>, display: Seq<FormatModsV>) -> Seq<FormatModsV>
    decreases t.len(),
{
    if t.len() == 0 {
        Seq::empty()
    } else {
        supported_added(table_filtered(t.drop_last(), display), t.last().fourcc, t.last().mods, display)
    }
}

/// Takes all that a display does not support out of a table.
pub fn filter_format_table(egl: &EglDisplay, format_table: &FormatTable) -> (r: FormatTable)
    ensures
        r@ == table_filtered(format_table@, egl@.supported_formats),
        table_wf(r@),
{
    let mut formats = FormatTable::new();
    let entries = format_table.entries();
    let ghost t = format_table@;
    let ghost sup = egl@.supported_formats;
    let mut i: usize = 0;
    assert(t.take(0) =~= Seq::<FormatModsV>::empty());
    while i < entries.len()
        invariant
            i <= entries.len(),
            entry_views(entries@) == t,
            sup == egl@.supported_formats,
            table_wf(formats@),
            formats@ == table_filtered(t.take(i as int), sup),
        decreases entries.len() - i,
    {
        let fourcc = entries[i].fourcc;
        let mods = &entries[i].mods;
        let ghost start = formats@;
        assert(t[i as int] == entries@[i as int]@);
        assert(t.take(i + 1).drop_last() =~= t.take(i as int));
        assert(t.take(i + 1).last() == t[i as int]);
        let mut j: usize = 0;
        assert(mods@.take(0) =~= Seq::<u64>::empty());
        while j < mods.len()
            invariant
                j <= mods.len(),
                sup == egl@.supported_formats,
                table_wf(formats@),
                formats@ == supported_added(start, fourcc, mods@.take(j as int), sup),
            decreases mods.len() - j,
        {
            assert(mods@.take(j + 1).drop_last() =~= mods@.take(j as int));
            if egl.is_format_supported(fourcc, mods[j]) {
                formats.add_modifier(fourcc, mods[j]);
            }
            j = j + 1;
        }
        assert(mods@.take(j as int) =~= mods@);
        i = i + 1;
    }
    assert(t.take(i as int) =~= t);
    formats
}

/// A format and a modifier that go together.
#[derive(Debug, Clone, Copy, PartialEq, Eq, Structural)]
pub struct FormatPair {
    pub fourcc: Fourcc,
    pub modifier: u64,
}

/// Some of the pairs of a list, by their places in it.
#[derive(Debug)]
pub struct Tranche {
    /// Whether the pairs are meant for buffers that are shown without being drawn.
    pub scanout: bool,
    pub formats: Vec<u16>,
}

/// A table after the pairs at some places that a display supports were added.
pub open spec fn places_added(
    t: Seq<FormatModsV>,
    places: Seq<u16>,
    pairs: Seq<FormatPair>,
    display: Seq<FormatModsV>,
) -> Seq<FormatModsV>
    decreases places.len(),
{
    if places.len() == 0 {
        t
    } else {
        let before = places_added(t, places.drop_last(), pairs, display);
        let pair = pairs[places.last() as int];
        if supports(display, pair.fourcc, pair.modifier) {
            modifier_added(before, pair.fourcc, pair.modifier)
        } else {
            before
        }
    }
}

/// The table of the pairs that are meant for drawing and that a display supports.
pub open spec fn tranches_collected(
    tranches: Seq<Tranche>,
    pairs: Seq<FormatPair>,
    display: Seq<FormatModsV>,
) -> Seq<FormatModsV>
    decreases tranches.len(),
{
    if tranches.len() == 0 {
        Seq::empty()
    } else {
        let before = tranches_collected(tranches.drop_last(), pairs, display);
        if tranches.last().scanout {
            before
        } else {
            places_added(before, tranches.last().formats@, pairs, display)
        }
    }
}

/// Whether every place is a place of the list.
pub open spec fn places_in(tranche: Tranche, pairs: Seq<FormatPair>) -> bool {
    forall|j: int| 0 <= j < tranche.formats@.len() ==> (#[trigger] tranche.formats@[j]) < pairs.len()
}

/// Collects the pairs that are meant for drawing and that a display supports.
pub fn format_table_from_feedback(egl: &EglDisplay, pairs: &Vec<FormatPair>, tranches: &Vec<Tranche>) -> (r: FormatTable)
    requires
        forall|i: int| 0 <= i < tranches@.len() ==> places_in(#[trigger] tranches@[i], pairs@),
    ensures
        r@ == tranches_collected(tranches@, pairs@, egl@.supported_formats),
        table_wf(r@),
{
    let mut formats = FormatTable::new();
    let ghost sup = egl@.supported_formats;
    let mut i: usize = 0;
    assert(tranches@.take(0) =~= Seq::<Tranche>::empty());
    while i < tranches.len()
        invariant
            i <= tranches.len(),
            sup == egl@.supported_formats,
            forall|k: int| 0 <= k < tranches@.len() ==> places_in(#[trigger] tranches@[k], pairs@),
            table_wf(formats@),
            formats@ == tranches_collected(tranches@.take(i as int), pairs@, sup),
        decreases tranches.len() - i,
    {
        let ghost start = formats@;
        assert(tranches@.take(i + 1).drop_last() =~= tranches@.take(i as int));
        assert(places_in(tranches@[i as int], pairs@));
        if !tranches[i].scanout {
            let places = &tranches[i].formats;
            let mut j: usize = 0;
            assert(places@.take(0) =~= Seq::<u16>::empty());
            while j < places.len()
                invariant
                    j <= places.len(),
                    sup == egl@.supported_formats,
                    forall|k: int| 0 <= k < places@.len() ==> (#[trigger] places@[k]) < pairs@.len(),
                    table_wf(formats@),
                    formats@ == places_added(start, places@.take(j as int), pairs@, sup),
                decreases places.len() - j,
            {
                assert(places@.take(j + 1).drop_last() =~= places@.take(j as int));
                let pair = pairs[places[j] as usize];
                if egl.is_format_supported(pair.fourcc, pair.modifier) {
                    formats.add_modifier(pair.fourcc, pair.modifier);
                }
                j = j + 1;
            }
            assert(places@.take(j as int) =~= places@);
        }
        i = i + 1;
    }
    assert(tranches@.take(i as int) =~= tranches@);
    formats
}

/// The modifiers of a format that a display supports, in the same order.
pub open spec fn supported_modifiers(mods: Seq<u64>, display: Seq<FormatModsV>, fourcc: Fourcc) -> Seq<u64> {
    mods.filter(|m: u64| supports(display, fourcc, m))
}

/// All modifiers that a table lists for a format, in order.
pub open spec fn listed_for(t: Seq<FormatModsV>, fourcc: Fourcc) -> Seq<u64>
    decreases t.len(),
{
    if t.len() == 0 {
        Seq::empty()
    } else if t.last().fourcc == fourcc {
        listed_for(t.drop_last(), fourcc) + t.last().mods
    } else {
        listed_for(t.drop_last(), fourcc)
    }
}

/// Filtering leaves each format the modifiers that the display supports, in the order of the table, and
/// leaves no format without a modifier.
pub proof fn law_filtered_keeps_supported(t: Seq<FormatModsV>, display: Seq<FormatModsV>, fourcc: Fourcc)
    ensures
        ({
            let kept = supported_modifiers(listed_for(t, fourcc), display, fourcc);
            modifiers_of(table_filtered(t, display), fourcc) == (if kept.len() == 0 {
                None::<Seq<u64>>
            } else {
                Some(kept)
            })
        }),
    decreases t.len(),
{
    let p = |m: u64| supports(display, fourcc, m);
    reveal(Seq::filter);
    if t.len() > 0 {
        law_filtered_keeps_supported(t.drop_last(), display, fourcc);
        lemma_filtered_wf(t.drop_last(), display);
        let before = table_filtered(t.drop_last(), display);
        lemma_kept(before, t.last().fourcc, t.last().mods, display, fourcc);
        if t.last().fourcc == fourcc {
            Seq::filter_distributes_over_add(listed_for(t.drop_last(), fourcc), t.last().mods, p);
        }
    }
}

/// What adding the supported modifiers of a format does to the modifiers of a format.
proof fn lemma_kept(t: Seq<FormatModsV>, f: Fourcc, mods: Seq<u64>, display: Seq<FormatModsV>, fourcc: Fourcc)
    requires
        table_wf(t),
    ensures
        f != fourcc ==> modifiers_of(supported_added(t, f, mods, display), fourcc) == modifiers_of(t, fourcc),
        f == fourcc ==> ({
            let kept = supported_modifiers(mods, display, fourcc);
            modifiers_of(supported_added(t, f, mods, display), fourcc) == (if kept.len() == 0 {
                modifiers_of(t, fourcc)
            } else {
                match modifiers_of(t, fourcc) {
                    Some(before) => Some(before + kept),
                    None => Some(kept),
                }
            })
        }),
    decreases mods.len(),
{
    reveal(Seq::filter);
    if mods.len() > 0 {
        lemma_kept(t, f, mods.drop_last(), display, fourcc);
        lemma_supported_added_wf(t, f, mods.drop_last(), display);
        let before = supported_added(t, f, mods.drop_last(), display);
        law_modifier_added(before, f, mods.last(), fourcc);
        if f == fourcc && supports(display, fourcc, mods.last()) {
            let kept = supported_modifiers(mods.drop_last(), display, fourcc);
            assert(supported_modifiers(mods, display, fourcc) =~= kept.push(mods.last()));
            assert(kept.len() == 0 ==> kept.push(mods.last()) =~= seq![mods.last()]);
            if let Some(b) = modifiers_of(t, fourcc) {
                assert(b + kept.push(mods.last()) =~= (b + kept).push(mods.last()));
                assert(kept.len() == 0 ==> b + kept.push(mods.last()) =~= b.push(mods.last()));
            }
        }
    }
}

/// Every format and modifier that is left after filtering is supported by the display.
pub proof fn law_filtered_is_supported(t: Seq<FormatModsV>, display: Seq<FormatModsV>, fourcc: Fourcc, modifier: u64)
    requires
        supports(table_filtered(t, display), fourcc, modifier),
    ensures
        supports(display, fourcc, modifier),
        table_wf(table_filtered(t, display)),
    decreases t.len(),
{
    lemma_filtered_wf(t, display);
    if t.len() > 0 {
        let before = table_filtered(t.drop_last(), display);
        lemma_filtered_wf(t.drop_last(), display);
        lemma_supported_added(before, t.last().fourcc, t.last().mods, display, fourcc, modifier);
        if supports(before, fourcc, modifier) {
            law_filtered_is_supported(t.drop_last(), display, fourcc, modifier);
        }
    }
}

proof fn lemma_filtered_wf(t: Seq<FormatModsV>, display: Seq<FormatModsV>)
    ensures
        table_wf(table_filtered(t, display)),
    decreases t.len(),
{
    if t.len() > 0 {
        lemma_filtered_wf(t.drop_last(), display);
        lemma_supported_added_wf(table_filtered(t.drop_last(), display), t.last().fourcc, t.last().mods, display);
    }
}

proof fn lemma_supported_added_wf(t: Seq<FormatModsV>, f: Fourcc, mods: Seq<u64>, display: Seq<FormatModsV>)
    requires
        table_wf(t),
    ensures
        table_wf(supported_added(t, f, mods, display)),
    decreases mods.len(),
{
    if mods.len() > 0 {
        lemma_supported_added_wf(t, f, mods.drop_last(), display);
        law_modifier_added(supported_added(t, f, mods.drop_last(), display), f, mods.last(), f);
    }
}

proof fn lemma_supported_added(
    t: Seq<FormatModsV>,
    f: Fourcc,
    mods: Seq<u64>,
    display: Seq<FormatModsV>,
    fourcc: Fourcc,
    modifier: u64,
)
    requires
        table_wf(t),
        supports(supported_added(t, f, mods, display), fourcc, modifier),
    ensures
        supports(t, fourcc, modifier) || supports(display, fourcc, modifier),
    decreases mods.len(),
{
    if mods.len() > 0 {
        let before = supported_added(t, f, mods.drop_last(), display);
        lemma_supported_added_wf(t, f, mods.drop_last(), display);
        if supports(display, f, mods.last()) {
            law_modifier_added(before, f, mods.last(), fourcc);
            if !supports(before, fourcc, modifier) {
                assert(fourcc == f && modifier == mods.last());
            }
        }
        if supports(before, fourcc, modifier) {
            lemma_supported_added(t, f, mods.drop_last(), display, fourcc, modifier);
        }
    }
}

/// A rectangle is drawn as two triangles that have its diagonal in common and its four corners together. The corners
/// of a texture are at the corners of the rectangle of the same name.
pub proof fn law_quad_is_the_rectangle(rect: ScreenRect, unit: Option<u32>, k: int)
    requires
        0 <= k < 6,
    ensures
        ({
            let q = quad(rect, unit);
            let right = rect.x.wrapping_add(rect.width as i32);
            let bottom = rect.y.wrapping_add(rect.height as i32);
            &&& q.len() == 6
            &&& q[0] == q[5] && q[2] == q[3]
            &&& (q[0].x, q[0].y) == (rect.x, rect.y) && (q[2].x, q[2].y) == (right, bottom)
            &&& (q[1].x, q[1].y) == (right, rect.y) && (q[4].x, q[4].y) == (rect.x, bottom)
            &&& unit is None ==> q[k].shade is Colour
            &&& unit matches Some(u) ==> (q[k].shade matches Shade::Texture { unit: v, right: r, bottom: b } && v == u
                && q[k].x == if r {
                right
            } else {
                rect.x
            } && q[k].y == if b {
                bottom
            } else {
                rect.y
            })
            &&& unit is Some ==> q[0].shade != q[1].shade && q[1].shade != q[2].shade && q[2].shade != q[4].shade
                && q[4].shade != q[0].shade
        }),
{
}

/// A texture is there until its last use has ended and its object is gone. With the end of its last use the client is
/// told once that its buffer is free, if the object is there, and else OpenGL has to give the texture up. Other
/// textures stay as they are.
pub proof fn law_texture_is_there_while_it_is_used(r: GlRendererV, id: u64, other: u64)
    requires
        r.textures.contains_key(id),
        r.textures[id].locks > 0,
        other != id,
    ensures
        ({
            let t = r.textures[id];
            let after = r.unlocked(id);
            let last = t.locks == 1;
            &&& after.textures.contains_key(id) == !(last && t.resource is None)
            &&& after.textures.contains_key(id) ==> after.textures[id] == (Texture {
                locks: (t.locks - 1) as u32,
                ..t
            })
            &&& r.unlock_deletes(id) == if last && t.resource is None {
                Some(t.gl_name)
            } else {
                None
            }
            &&& r.unlock_events(id) == if last && t.resource is Some {
                seq![Action::BufferRelease { buffer: t.resource->0 }]
            } else {
                Seq::empty()
            }
            &&& after.textures.contains_key(other) == r.textures.contains_key(other)
            &&& r.textures.contains_key(other) ==> after.textures[other] == r.textures[other]
            &&& after.pools == r.pools && after.shm_buffers == r.shm_buffers && after.dma_buffers == r.dma_buffers
        }),
{
}

/// To take one more use of a texture and to end it changes nothing.
pub proof fn law_use_and_end(r: GlRendererV, id: u64)
    requires
        r.textures.contains_key(id),
        r.textures[id].locks < u32::MAX,
        r.textures[id].locks > 0 || r.textures[id].resource is Some,
    ensures
        r.with_locks(id, (r.textures[id].locks + 1) as u32).unlocked(id) == r,
{
    assert(r.with_locks(id, (r.textures[id].locks + 1) as u32).unlocked(id).textures =~= r.textures);
}

/// A pool is there as long as the client has its object or a buffer in it: it goes with the last buffer if the
/// object is gone before, and with the object if no buffer is in it.
pub proof fn law_pool_goes_with_the_last_buffer(r: GlRendererV, resource: Handle)
    requires
        gl_renderer_wf(r),
        r.shm_buffers.contains_key(resource.key),
        !r.dma_buffers.contains_key(resource.key),
        !r.pix_buffers.contains_key(resource.key),
        r.pools.contains_key(r.shm_buffers[resource.key].pool.key),
        r.pools[r.shm_buffers[resource.key].pool.key].refcnt > 0,
    ensures
        ({
            let pool = r.shm_buffers[resource.key].pool.key;
            let p = r.pools[pool];
            let after = r.resource_destroyed(resource);
            &&& !after.shm_buffers.contains_key(resource.key)
            &&& after.pools.contains_key(pool) == (p.alive || p.refcnt > 1)
            &&& after.pools.contains_key(pool) ==> after.pools[pool] == (ShmPool { refcnt: (p.refcnt - 1) as usize, ..p })
            &&& after.textures == r.textures
        }),
{
}

} // verus!
