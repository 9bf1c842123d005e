//! Buffers in shared memory.
use vstd::prelude::*;

use crate::backend::pixman_renderer::{fresh_pool, pool_resized, pool_there, renderer_wf, RendererStateImp, RendererV};
use crate::error::Error;
use crate::globals::single_pixel_buffer::destroy_buffers;
use crate::protocol::{Action, Handle, ShmFormat};

verus! {

/// Where the pixels of a buffer are in a pool of shared memory.
#[derive(Debug, Clone, Copy, PartialEq, Eq, Structural)]
pub struct ShmBufferSpec {
    pub pool: Handle,
    pub offset: u32,
    pub width: u32,
    pub height: u32,
    pub stride: u32,
    pub wl_format: ShmFormat,
}

/// The objects of one client that have to do with shared memory.
#[derive(Debug)]
pub struct Shm {
    pub shm_pools: Vec<Handle>,
    pub wl_buffers: Vec<Handle>,
}

/// What a [`Shm`] says.
#[verifier::ext_equal]
pub struct ShmV {
    pub shm_pools: Seq<Handle>,
    pub wl_buffers: Seq<Handle>,
}

impl View for Shm {
    type V = ShmV;

    open spec fn view(&self) -> ShmV {
        ShmV { shm_pools: self.shm_pools@, wl_buffers: self.wl_buffers@ }
    }
}

/// A list of objects without one of them.
pub open spec fn handles_without(list: Seq<Handle>, h: Handle) -> Seq<Handle>
    decreases list.len(),
{
    if list.len() == 0 {
        Seq::empty()
    } else {
        let before = handles_without(list.drop_last(), h);
        if list.last() == h {
            before
        } else {
            before.push(list.last())
        }
    }
}

/// Takes an object out of a list.
pub fn remove_handle(list: &mut Vec<Handle>, h: Handle)
    ensures
        final(list)@ == handles_without(old(list)@, h),
{
    let mut kept: Vec<Handle> = Vec::new();
    let mut i: usize = 0;
    assert(list@.take(0) =~= Seq::<Handle>::empty());
    while i < list.len()
        invariant
            i <= list.len(),
            list@ == old(list)@,
            kept@ == handles_without(list@.take(i as int), h),
        decreases list.len() - i,
    {
        assert(list@.take(i + 1).drop_last() =~= list@.take(i as int));
        if list[i] != h {
            kept.push(list[i]);
        }
        i = i + 1;
    }
    assert(list@.take(i as int) =~= list@);
    *list = kept;
}

/// Whether a buffer object is known and its pool, if it has one, is there.
pub open spec fn can_destroy(r: RendererV, buffer: Handle) -> bool {
    &&& r.resources.contains_key(buffer.key)
    &&& pool_there(r, r.resources[buffer.key].0)
}

/// Requests on a pool of shared memory.
#[derive(Debug, Clone, Copy, PartialEq, Eq, Structural)]
pub enum ShmPoolRequest {
    CreateBuffer { buffer: Handle, offset: i32, width: i32, height: i32, stride: i32, format: ShmFormat },
    Destroy,
    Resize(i32),
}

/// What comes of a request that has to do with shared memory.
#[verifier::ext_equal]
pub struct ShmOutcome {
    pub shm: ShmV,
    pub renderer: RendererV,
    pub result: Result<(), Error>,
}

/// Whether the renderer can show buffers of a format.
pub open spec fn shm_format_supported(format: ShmFormat) -> bool {
    format is Argb8888 || format is Xrgb8888
}

/// Checks that a pool is not empty.
pub fn check_pool_size(size: i32) -> (r: Result<(), Error>)
    ensures
        r == (if size <= 0 {
            Err::<(), Error>(Error::PoolSizeNotPositive)
        } else {
            Ok::<(), Error>(())
        }),
{
    if size <= 0 {
        return Err(Error::PoolSizeNotPositive);
    }
    Ok(())
}

/// Checks that the renderer can show buffers of a format.
pub fn check_shm_format(format: ShmFormat) -> (r: Result<(), Error>)
    ensures
        r == (if shm_format_supported(format) {
            Ok::<(), Error>(())
        } else {
            Err::<(), Error>(Error::UnsupportedShmFormat)
        }),
{
    match format {
        ShmFormat::Argb8888 => Ok(()),
        ShmFormat::Xrgb8888 => Ok(()),
        _ => Err(Error::UnsupportedShmFormat),
    }
}

impl ShmV {
    /// What comes of creating a pool.
    pub open spec fn pool_created(self, renderer: RendererV, pool: Handle, size: i32) -> ShmOutcome {
        if size <= 0 {
            ShmOutcome { shm: self, renderer, result: Err(Error::PoolSizeNotPositive) }
        } else {
            ShmOutcome {
                shm: ShmV { shm_pools: self.shm_pools.push(pool), ..self },
                renderer: renderer.with_pool(pool, size as usize),
                result: Ok(()),
            }
        }
    }

    /// What comes of a request on a pool.
    pub open spec fn pool_request(self, renderer: RendererV, pool: Handle, request: ShmPoolRequest) -> ShmOutcome {
        match request {
            ShmPoolRequest::CreateBuffer { buffer, offset, width, height, stride, format } => if !shm_format_supported(
                format,
            ) {
                ShmOutcome { shm: self, renderer, result: Err(Error::UnsupportedShmFormat) }
            } else {
                ShmOutcome {
                    shm: ShmV { wl_buffers: self.wl_buffers.push(buffer), ..self },
                    renderer: renderer.with_shm_buffer(
                        ShmBufferSpec {
                            pool,
                            offset: offset as u32,
                            width: width as u32,
                            height: height as u32,
                            stride: stride as u32,
                            wl_format: format,
                        },
                        buffer,
                    ),
                    result: Ok(()),
                }
            },
            ShmPoolRequest::Destroy => ShmOutcome {
                shm: ShmV { shm_pools: handles_without(self.shm_pools, pool), ..self },
                renderer: renderer.pool_destroyed(pool),
                result: Ok(()),
            },
            ShmPoolRequest::Resize(size) => ShmOutcome {
                shm: self,
                renderer: pool_resized(renderer, pool, size),
                result: Ok(()),
            },
        }
    }
}

impl Shm {
    /// No objects.
    pub fn new() -> (r: Self)
        ensures
            r@ == (ShmV { shm_pools: Seq::empty(), wl_buffers: Seq::empty() }),
    {
        Self { shm_pools: Vec::new(), wl_buffers: Vec::new() }
    }

    /// Handles the request to create a pool.
    pub fn create_pool(&mut self, renderer: &mut RendererStateImp, pool: Handle, size: i32) -> (r: Result<(), Error>)
        requires
            renderer_wf(old(renderer)@),
            fresh_pool(old(renderer)@, pool),
        ensures
            ({
                let o = old(self)@.pool_created(old(renderer)@, pool, size);
                final(self)@ == o.shm && final(renderer)@ == o.renderer && r == o.result
            }),
            renderer_wf(final(renderer)@),
    {
        if let Err(e) = check_pool_size(size) {
            return Err(e);
        }
        renderer.add_pool(pool, size as usize);
        self.shm_pools.push(pool);
        Ok(())
    }

    /// Handles a request on a pool.
    pub fn wl_shm_pool_cb(&mut self, renderer: &mut RendererStateImp, pool: Handle, request: ShmPoolRequest) -> (r: Result<
        (),
        Error,
    >)
        requires
            renderer_wf(old(renderer)@),
            old(renderer)@.pools.contains_key(pool.key),
            old(renderer)@.pools[pool.key].alive,
            request matches ShmPoolRequest::CreateBuffer { buffer, .. } ==> {
                &&& !old(renderer)@.resources.contains_key(buffer.key)
                &&& old(renderer)@.next_id < u64::MAX
                &&& old(renderer)@.pools[pool.key].refcnt < usize::MAX
            },
        ensures
            ({
                let o = old(self)@.pool_request(old(renderer)@, pool, request);
                final(self)@ == o.shm && final(renderer)@ == o.renderer && r == o.result
            }),
            renderer_wf(final(renderer)@),
    {
        match request {
            ShmPoolRequest::CreateBuffer { buffer, offset, width, height, stride, format } => {
                if let Err(e) = check_shm_format(format) {
                    return Err(e);
                }
                self.wl_buffers.push(buffer);
                renderer.create_shm_buffer(
                    ShmBufferSpec {
                        pool,
                        offset: offset as u32,
                        width: width as u32,
                        height: height as u32,
                        stride: stride as u32,
                        wl_format: format,
                    },
                    buffer,
                );
            },
            ShmPoolRequest::Destroy => {
                remove_handle(&mut self.shm_pools, pool);
                renderer.destroy_pool(pool);
            },
            ShmPoolRequest::Resize(size) => {
                renderer.resize_pool(pool, size);
            },
        }
        Ok(())
    }

    /// Handles the request to destroy a buffer.
    pub fn wl_buffer_cb(&mut self, renderer: &mut RendererStateImp, buffer: Handle)
        requires
            renderer_wf(old(renderer)@),
            can_destroy(old(renderer)@, buffer),
        ensures
            final(self)@ == (ShmV { wl_buffers: handles_without(old(self)@.wl_buffers, buffer), ..old(self)@ }),
            final(renderer)@ == old(renderer)@.resource_destroyed(buffer),
            renderer_wf(final(renderer)@),
    {
        remove_handle(&mut self.wl_buffers, buffer);
        renderer.buffer_resource_destroyed(buffer);
    }

    /// Forgets all objects of a client that is gone: first its buffers, then its pools.
    pub fn destroy(self, renderer: &mut RendererStateImp)
        requires
            renderer_wf(old(renderer)@),
            forall|k: int| 0 <= k < self@.wl_buffers.len() ==> can_destroy(old(renderer)@, #[trigger] self@.wl_buffers[k]),
            forall|j: int, k: int|
                0 <= j < k < self@.wl_buffers.len() ==> (#[trigger] self@.wl_buffers[j]).key != (
                #[trigger] self@.wl_buffers[k]).key,
        ensures
            final(renderer)@ == old(renderer)@.resources_destroyed(self@.wl_buffers).pools_removed(self@.shm_pools),
            renderer_wf(final(renderer)@),
    {
        let buffers = self.wl_buffers;
        let pools = self.shm_pools;
        assert(forall|k: int| 0 <= k < buffers@.len() ==> self@.wl_buffers[k] == #[trigger] buffers@[k]);
        destroy_buffers(&buffers, renderer);
        let ghost r1 = renderer@;
        let mut k: usize = 0;
        assert(pools@.take(0) =~= Seq::<Handle>::empty());
        while k < pools.len()
            invariant
                k <= pools.len(),
                renderer_wf(renderer@),
                renderer@ == r1.pools_removed(pools@.take(k as int)),
            decreases pools.len() - k,
        {
            assert(pools@.take(k + 1).drop_last() =~= pools@.take(k as int));
            assert(pools@.take(k + 1).last() == pools@[k as int]);
            renderer.remove_pool(pools[k]);
            k = k + 1;
        }
        assert(pools@.take(k as int) =~= pools@);
    }
}

/// The events that tell a new `wl_shm` object the formats.
pub open spec fn shm_format_events(shm: Handle) -> Seq<Action> {
    seq![
        Action::ShmFormat { shm, format: ShmFormat::Argb8888 },
        Action::ShmFormat { shm, format: ShmFormat::Xrgb8888 },
    ]
}

/// Tells a new `wl_shm` object the formats.
pub fn send_shm_formats(shm: Handle, actions: &mut Vec<Action>)
    ensures
        final(actions)@ == old(actions)@ + shm_format_events(shm),
{
    let ghost a0 = actions@;
    actions.push(Action::ShmFormat { shm, format: ShmFormat::Argb8888 });
    actions.push(Action::ShmFormat { shm, format: ShmFormat::Xrgb8888 });
    assert(actions@ =~= a0 + shm_format_events(shm));
}

} // verus!
