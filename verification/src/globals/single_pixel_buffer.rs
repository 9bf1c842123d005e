//! Buffers of one pixel.
use vstd::prelude::*;

use crate::backend::gl46_renderer::{self, fresh_buffer, gl_renderer_wf, GlRendererV, Rgba};
use crate::backend::pixman_renderer::{law_pool_kept, renderer_wf, RendererStateImp};
use crate::backend::BufferId;
use crate::globals::shm::{can_destroy, handles_without, remove_handle};
use crate::protocol::Handle;

verus! {

/// The buffers of one pixel that a client has.
#[derive(Debug)]
pub struct SinglePixelBufferManager {
    pub buffers: Vec<Handle>,
}

impl View for SinglePixelBufferManager {
    type V = Seq<Handle>;

    open spec fn view(&self) -> Seq<Handle> {
        self.buffers@
    }
}

impl SinglePixelBufferManager {
    /// No buffers.
    pub fn new() -> (r: Self)
        ensures
            r@ == Seq::<Handle>::empty(),
    {
        Self { buffers: Vec::new() }
    }

    /// Handles the request to create a buffer. Gives the number by which the renderer knows its
    /// colour.
    pub fn create_buffer(&mut self, renderer: &mut RendererStateImp, buffer: Handle) -> (id: BufferId)
        requires
            renderer_wf(old(renderer)@),
            old(renderer)@.next_id < u64::MAX,
            !old(renderer)@.resources.contains_key(buffer.key),
        ensures
            id.0 == old(renderer)@.next_id,
            final(self)@ == old(self)@.push(buffer),
            final(renderer)@ == old(renderer)@.with_single_pix(buffer),
            renderer_wf(final(renderer)@),
    {
        self.buffers.push(buffer);
        renderer.create_single_pix_buffer(buffer)
    }

    /// Handles the request to destroy a buffer.
    pub fn wl_buffer_cb(&mut self, renderer: &mut RendererStateImp, buffer: Handle)
        requires
            renderer_wf(old(renderer)@),
            can_destroy(old(renderer)@, buffer),
        ensures
            final(self)@ == handles_without(old(self)@, buffer),
            final(renderer)@ == old(renderer)@.resource_destroyed(buffer),
            renderer_wf(final(renderer)@),
    {
        remove_handle(&mut self.buffers, buffer);
        renderer.buffer_resource_destroyed(buffer);
    }

    /// Forgets all buffers of a client that is gone.
    pub fn destroy(self, renderer: &mut RendererStateImp)
        requires
            renderer_wf(old(renderer)@),
            forall|k: int| 0 <= k < self@.len() ==> can_destroy(old(renderer)@, #[trigger] self@[k]),
            forall|j: int, k: int|
                0 <= j < k < self@.len() ==> (#[trigger] self@[j]).key != (#[trigger] self@[k]).key,
        ensures
            final(renderer)@ == old(renderer)@.resources_destroyed(self@),
            renderer_wf(final(renderer)@),
    {
        destroy_buffers(&self.buffers, renderer);
    }

    /// Handles the request to create a buffer, for the OpenGL renderer.
    pub fn gl_create_buffer(&mut self, renderer: &mut gl46_renderer::RendererStateImp, color: Rgba, buffer: Handle)
        requires
            gl_renderer_wf(old(renderer)@),
            fresh_buffer(old(renderer)@, buffer.key),
        ensures
            final(self)@ == old(self)@.push(buffer),
            final(renderer)@ == (GlRendererV {
                pix_buffers: old(renderer)@.pix_buffers.insert(buffer.key, color),
                ..old(renderer)@
            }),
            gl_renderer_wf(final(renderer)@),
    {
        self.buffers.push(buffer);
        renderer.create_single_pix_buffer(color, buffer);
    }

    /// Handles the request to destroy a buffer, for the OpenGL renderer.
    pub fn gl_wl_buffer_cb(&mut self, renderer: &mut gl46_renderer::RendererStateImp, buffer: Handle)
        requires
            gl_renderer_wf(old(renderer)@),
            old(renderer)@.pix_buffers.contains_key(buffer.key),
        ensures
            final(self)@ == handles_without(old(self)@, buffer),
            final(renderer)@ == old(renderer)@.resource_destroyed(buffer),
            gl_renderer_wf(final(renderer)@),
    {
        remove_handle(&mut self.buffers, buffer);
        let deleted = renderer.buffer_resource_destroyed(buffer);
        assert(deleted is None);
    }

    /// Forgets all buffers of a client that is gone, for the OpenGL renderer.
    pub fn gl_destroy(self, renderer: &mut gl46_renderer::RendererStateImp)
        requires
            gl_renderer_wf(old(renderer)@),
            forall|k: int|
                0 <= k < self@.len() ==> old(renderer)@.pix_buffers.contains_key((#[trigger] self@[k]).key),
            forall|j: int, k: int|
                0 <= j < k < self@.len() ==> (#[trigger] self@[j]).key != (#[trigger] self@[k]).key,
        ensures
            final(renderer)@ == old(renderer)@.resources_destroyed(self@),
            gl_renderer_wf(final(renderer)@),
    {
        let buffers = self.buffers;
        let ghost r0 = renderer@;
        let mut i: usize = 0;
        assert(buffers@.take(0) =~= Seq::<Handle>::empty());
        assert(forall|k: int| 0 <= k < buffers@.len() ==> self@[k] == #[trigger] buffers@[k]);
        while i < buffers.len()
            invariant
                i <= buffers.len(),
                gl_renderer_wf(renderer@),
                renderer@ == r0.resources_destroyed(buffers@.take(i as int)),
                forall|k: int|
                    i <= k < buffers@.len() ==> renderer@.pix_buffers.contains_key((#[trigger] buffers@[k]).key),
                forall|j: int, k: int|
                    0 <= j < k < buffers@.len() ==> (#[trigger] buffers@[j]).key != (#[trigger] buffers@[k]).key,
            decreases buffers.len() - i,
        {
            assert(buffers@.take(i + 1).drop_last() =~= buffers@.take(i as int));
            assert(buffers@.take(i + 1).last() == buffers@[i as int]);
            assert(renderer@.pix_buffers.contains_key(buffers@[i as int].key));
            let deleted = renderer.buffer_resource_destroyed(buffers[i]);
            assert(deleted is None);
            i = i + 1;
        }
        assert(buffers@.take(i as int) =~= buffers@);
    }
}

/// Forgets several buffer objects.
pub fn destroy_buffers(buffers: &Vec<Handle>, renderer: &mut RendererStateImp)
    requires
        renderer_wf(old(renderer)@),
        forall|k: int| 0 <= k < buffers@.len() ==> can_destroy(old(renderer)@, #[trigger] buffers@[k]),
        forall|j: int, k: int|
            0 <= j < k < buffers@.len() ==> (#[trigger] buffers@[j]).key != (#[trigger] buffers@[k]).key,
    ensures
        final(renderer)@ == old(renderer)@.resources_destroyed(buffers@),
        renderer_wf(final(renderer)@),
{
    let ghost r0 = renderer@;
    let mut i: usize = 0;
    assert(buffers@.take(0) =~= Seq::<Handle>::empty());
    while i < buffers.len()
        invariant
            i <= buffers.len(),
            renderer_wf(renderer@),
            renderer@ == r0.resources_destroyed(buffers@.take(i as int)),
            forall|k: int| i <= k < buffers@.len() ==> can_destroy(renderer@, #[trigger] buffers@[k]),
            forall|j: int, k: int|
                0 <= j < k < buffers@.len() ==> (#[trigger] buffers@[j]).key != (#[trigger] buffers@[k]).key,
        decreases buffers.len() - i,
    {
        assert(buffers@.take(i + 1).drop_last() =~= buffers@.take(i as int));
        assert(buffers@.take(i + 1).last() == buffers@[i as int]);
        let ghost before = renderer@;
        assert(can_destroy(before, buffers@[i as int]));
        renderer.buffer_resource_destroyed(buffers[i]);
        assert forall|k: int| i + 1 <= k < buffers@.len() implies can_destroy(renderer@, #[trigger] buffers@[k]) by {
            assert(buffers@[i as int].key != buffers@[k].key);
            assert(can_destroy(before, buffers@[k]));
            law_pool_kept(before, buffers@[i as int], before.resources[buffers@[k].key].0);
        }
        i = i + 1;
    }
    assert(buffers@.take(i as int) =~= buffers@);
}

} // verus!
