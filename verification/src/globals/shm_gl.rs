//! Buffers in shared memory, for the OpenGL renderer.
use vstd::prelude::*;

use crate::backend::gl46_renderer::{fresh_buffer, gl_renderer_wf, GlRendererV, RendererStateImp};
use crate::error::Error;
use crate::globals::shm::{
    check_pool_size, check_shm_format, handles_without, remove_handle, shm_format_supported, Shm, ShmBufferSpec,
    ShmPoolRequest, ShmV,
};
use crate::protocol::Handle;

verus! {

/// What comes of a request that has to do with shared memory.
#[verifier::ext_equal]
pub struct GlShmOutcome {
    pub shm: ShmV,
    pub renderer: GlRendererV,
    pub result: Result<(), Error>,
}

impl ShmV {
    /// What comes of creating a pool.
    pub open spec fn gl_pool_created(self, renderer: GlRendererV, pool: Handle, size: i32) -> GlShmOutcome {
        if size <= 0 {
            GlShmOutcome { shm: self, renderer, result: Err(Error::PoolSizeNotPositive) }
        } else {
            GlShmOutcome {
                shm: ShmV { shm_pools: self.shm_pools.push(pool), ..self },
                renderer: renderer.with_pool(pool, size as usize),
                result: Ok(()),
            }
        }
    }

    /// What comes of a request on a pool.
    pub open spec fn gl_pool_request(self, renderer: GlRendererV, pool: Handle, request: ShmPoolRequest) -> GlShmOutcome {
        match request {
            ShmPoolRequest::CreateBuffer { buffer, offset, width, height, stride, format } => if !shm_format_supported(
                format,
            ) {
                GlShmOutcome { shm: self, renderer, result: Err(Error::UnsupportedShmFormat) }
            } else {
                GlShmOutcome {
                    shm: ShmV { wl_buffers: self.wl_buffers.push(buffer), ..self },
                    renderer: renderer.with_shm_buffer(
                        ShmBufferSpec {
                            pool,
                            offset: offset as u32,
                            width: width as u32,
                            height: height as u32,
                            stride: stride as u32,
                            wl_format: format,
                        },
                        buffer,
                    ),
                    result: Ok(()),
                }
            },
            ShmPoolRequest::Destroy => GlShmOutcome {
                shm: ShmV { shm_pools: handles_without(self.shm_pools, pool), ..self },
                renderer: renderer.pool_destroyed(pool),
                result: Ok(()),
            },
            ShmPoolRequest::Resize(size) => GlShmOutcome {
                shm: self,
                renderer: renderer.pool_resized(pool, size),
                result: Ok(()),
            },
        }
    }
}

/// Whether one of some objects has a key.
pub open spec fn has_key(list: Seq<Handle>, key: u64) -> bool {
    exists|i: int| 0 <= i < list.len() && (#[trigger] list[i]).key == key
}

impl Shm {
    /// Handles the request to create a pool.
    pub fn gl_create_pool(&mut self, renderer: &mut RendererStateImp, pool: Handle, size: i32) -> (r: Result<(), Error>)
        requires
            gl_renderer_wf(old(renderer)@),
            !old(renderer)@.pools.contains_key(pool.key),
        ensures
            ({
                let o = old(self)@.gl_pool_created(old(renderer)@, pool, size);
                final(self)@ == o.shm && final(renderer)@ == o.renderer && r == o.result
            }),
            gl_renderer_wf(final(renderer)@),
    {
        if let Err(e) = check_pool_size(size) {
            return Err(e);
        }
        renderer.add_pool(pool, size as usize);
        self.shm_pools.push(pool);
        Ok(())
    }

    /// Handles a request on a pool.
    pub fn gl_wl_shm_pool_cb(&mut self, renderer: &mut RendererStateImp, pool: Handle, request: ShmPoolRequest) -> (r:
        Result<(), Error>)
        requires
            gl_renderer_wf(old(renderer)@),
            old(renderer)@.pools.contains_key(pool.key),
            request matches ShmPoolRequest::CreateBuffer { buffer, .. } ==> {
                &&& fresh_buffer(old(renderer)@, buffer.key)
                &&& old(renderer)@.pools[pool.key].refcnt < usize::MAX
            },
        ensures
            ({
                let o = old(self)@.gl_pool_request(old(renderer)@, pool, request);
                final(self)@ == o.shm && final(renderer)@ == o.renderer && r == o.result
            }),
            gl_renderer_wf(final(renderer)@),
    {
        match request {
            ShmPoolRequest::CreateBuffer { buffer, offset, width, height, stride, format } => {
                if let Err(e) = check_shm_format(format) {
                    return Err(e);
                }
                self.wl_buffers.push(buffer);
                renderer.create_shm_buffer(
                    ShmBufferSpec {
                        pool,
                        offset: offset as u32,
                        width: width as u32,
                        height: height as u32,
                        stride: stride as u32,
                        wl_format: format,
                    },
                    buffer,
                );
            },
            ShmPoolRequest::Destroy => {
                remove_handle(&mut self.shm_pools, pool);
                renderer.destroy_pool(pool);
            },
            ShmPoolRequest::Resize(size) => {
                renderer.resize_pool(pool, size);
            },
        }
        Ok(())
    }

    /// Handles the request to destroy a buffer.
    pub fn gl_wl_buffer_cb(&mut self, renderer: &mut RendererStateImp, buffer: Handle)
        requires
            gl_renderer_wf(old(renderer)@),
            old(renderer)@.shm_buffers.contains_key(buffer.key),
        ensures
            final(self)@ == (ShmV { wl_buffers: handles_without(old(self)@.wl_buffers, buffer), ..old(self)@ }),
            final(renderer)@ == old(renderer)@.resource_destroyed(buffer),
            gl_renderer_wf(final(renderer)@),
    {
        remove_handle(&mut self.wl_buffers, buffer);
        let deleted = renderer.buffer_resource_destroyed(buffer);
        assert(deleted is None);
    }

    /// Forgets all objects of a client that is gone: first its buffers, then its pools. No other buffer may
    /// be in the pools.
    pub fn gl_destroy(self, renderer: &mut RendererStateImp)
        requires
            gl_renderer_wf(old(renderer)@),
            forall|k: int|
                0 <= k < self@.wl_buffers.len() ==> old(renderer)@.shm_buffers.contains_key(
                    (#[trigger] self@.wl_buffers[k]).key,
                ),
            forall|j: int, k: int|
                0 <= j < k < self@.wl_buffers.len() ==> (#[trigger] self@.wl_buffers[j]).key != (
                #[trigger] self@.wl_buffers[k]).key,
            forall|key: u64| #[trigger]
                old(renderer)@.shm_buffers.contains_key(key) && has_key(
                    self@.shm_pools,
                    old(renderer)@.shm_buffers[key].pool.key,
                ) ==> has_key(self@.wl_buffers, key),
        ensures
            final(renderer)@ == old(renderer)@.resources_destroyed(self@.wl_buffers).pools_removed(self@.shm_pools),
            gl_renderer_wf(final(renderer)@),
    {
        let buffers = self.wl_buffers;
        let pools = self.shm_pools;
        let ghost r0 = renderer@;
        assert(forall|k: int| 0 <= k < buffers@.len() ==> self@.wl_buffers[k] == #[trigger] buffers@[k]);
        let mut i: usize = 0;
        assert(buffers@.take(0) =~= Seq::<Handle>::empty());
        while i < buffers.len()
            invariant
                i <= buffers.len(),
                gl_renderer_wf(renderer@),
                renderer@ == r0.resources_destroyed(buffers@.take(i as int)),
                forall|k: int|
                    i <= k < buffers@.len() ==> renderer@.shm_buffers.contains_key((#[trigger] buffers@[k]).key),
                forall|j: int, k: int|
                    0 <= j < k < buffers@.len() ==> (#[trigger] buffers@[j]).key != (#[trigger] buffers@[k]).key,
                forall|j: int|
                    0 <= j < i ==> !renderer@.shm_buffers.contains_key((#[trigger] buffers@[j]).key),
                forall|key: u64| #[trigger]
                    renderer@.shm_buffers.contains_key(key) ==> r0.shm_buffers.contains_key(key)
                        && renderer@.shm_buffers[key] == r0.shm_buffers[key],
            decreases buffers.len() - i,
        {
            assert(buffers@.take(i + 1).drop_last() =~= buffers@.take(i as int));
            assert(buffers@.take(i + 1).last() == buffers@[i as int]);
            let ghost before = renderer@;
            assert(before.shm_buffers.contains_key(buffers@[i as int].key));
            let deleted = renderer.buffer_resource_destroyed(buffers[i]);
            assert(deleted is None);
            assert(renderer@.shm_buffers == before.shm_buffers.remove(buffers@[i as int].key));
            i = i + 1;
        }
        assert(buffers@.take(i as int) =~= buffers@);
        let ghost r1 = renderer@;
        assert forall|key: u64| #[trigger] r1.shm_buffers.contains_key(key) implies !has_key(
            pools@,
            r1.shm_buffers[key].pool.key,
        ) by {
            if has_key(pools@, r1.shm_buffers[key].pool.key) {
                assert(r0.shm_buffers.contains_key(key));
                assert(has_key(buffers@, key));
            }
        }
        let mut k: usize = 0;
        assert(pools@.take(0) =~= Seq::<Handle>::empty());
        while k < pools.len()
            invariant
                k <= pools.len(),
                gl_renderer_wf(renderer@),
                renderer@.shm_buffers == r1.shm_buffers,
                renderer@ == r1.pools_removed(pools@.take(k as int)),
                forall|key: u64| #[trigger]
                    r1.shm_buffers.contains_key(key) ==> !has_key(pools@, r1.shm_buffers[key].pool.key),
            decreases pools.len() - k,
        {
            assert(pools@.take(k + 1).drop_last() =~= pools@.take(k as int));
            assert(pools@.take(k + 1).last() == pools@[k as int]);
            renderer.remove_pool(pools[k]);
            k = k + 1;
        }
        assert(pools@.take(k as int) =~= pools@);
    }
}

} // verus!
