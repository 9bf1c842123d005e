use ewc::backend::gl46_renderer::{
    filter_format_table, format_table_from_feedback, Batch, FormatPair, RendererStateImp as GlRenderer, Rgba, Shade,
    Tranche, Vert,
};
use ewc::backend::pixman_renderer::{buffer_operation, pixel_range, Operation, RendererStateImp};
use ewc::backend::BufferId;
use ewc::client::ClientId;
use ewc::draw::ScreenRect;
use ewc::eglgbm::egl::{EglDisplay, EglExtensions};
use ewc::eglgbm::{FormatTable, Fourcc};
use ewc::error::Error;
use ewc::globals::linux_dmabuf::{AddArgs, LinuxDmabuf, Plane};
use ewc::globals::shm::{Shm, ShmBufferSpec, ShmPoolRequest};
use ewc::globals::single_pixel_buffer::SinglePixelBufferManager;
use ewc::protocol::{Action, Handle, ShmFormat};
use ewc::region::{Rect, Region};

fn handle(key: u64) -> Handle {
    Handle { client: ClientId::first(), key }
}

fn spec(pool: u64, width: u32, height: u32) -> ShmBufferSpec {
    ShmBufferSpec { pool: handle(pool), offset: 0, width, height, stride: 4 * width, wl_format: ShmFormat::Argb8888 }
}

fn create(buffer: u64, format: ShmFormat) -> ShmPoolRequest {
    ShmPoolRequest::CreateBuffer { buffer: handle(buffer), offset: 0, width: 2, height: 3, stride: 8, format }
}

#[test]
fn committed_buffer_is_released_when_its_last_use_ends() {
    let mut r = RendererStateImp::new();
    let mut actions = Vec::new();
    r.add_pool(handle(1), 100);
    r.create_shm_buffer(spec(1, 2, 3), handle(2));
    let a = r.commit_buffer(handle(2), &mut actions);
    let b = r.commit_buffer(handle(2), &mut actions);
    assert_eq!(a, b);
    assert_eq!((a.id, a.width, a.height), (BufferId(1), 2, 3));
    r.buffer_unlock(a.id, &mut actions);
    assert_eq!(actions, vec![]);
    r.buffer_unlock(a.id, &mut actions);
    assert_eq!(actions, vec![Action::BufferRelease { buffer: handle(2) }]);
    assert_eq!(r.get_buffer_size(a.id), (2, 3));
}

#[test]
fn buffer_in_use_outlives_its_object_and_its_pool() {
    let mut r = RendererStateImp::new();
    let mut actions = Vec::new();
    r.add_pool(handle(1), 100);
    r.create_shm_buffer(spec(1, 2, 3), handle(2));
    r.create_shm_buffer(spec(1, 4, 5), handle(3));
    let a = r.commit_buffer(handle(2), &mut actions);
    let b = r.commit_buffer(handle(3), &mut actions);
    r.destroy_pool(handle(1));
    r.buffer_resource_destroyed(handle(2));
    assert_eq!(r.get_buffer_size(a.id), (2, 3));
    r.buffer_unlock(a.id, &mut actions);
    assert_eq!(actions, vec![]);
    assert_eq!(r.get_buffer_size(b.id), (4, 5));
    assert!(format!("{:?}", r).contains("refcnt: 1, alive: false"));
    r.buffer_resource_destroyed(handle(3));
    r.buffer_unlock(b.id, &mut actions);
    assert!(format!("{:?}", r).contains("shm_pools: {}, resource_mapping: {}, buffers: {}"));
}

#[test]
fn buffer_may_be_given_up_before_or_after_its_last_use() {
    let run = |before: bool| {
        let mut r = RendererStateImp::new();
        let mut actions = Vec::new();
        r.add_pool(handle(1), 100);
        r.create_shm_buffer(spec(1, 2, 3), handle(2));
        let a = r.commit_buffer(handle(2), &mut actions);
        if before {
            r.buffer_resource_destroyed(handle(2));
            r.buffer_unlock(a.id, &mut actions);
        } else {
            r.buffer_unlock(a.id, &mut actions);
            r.buffer_resource_destroyed(handle(2));
        }
        format!("{:?}", r)
    };
    assert_eq!(run(true), run(false));
}

#[test]
fn single_pixel_is_released_at_once() {
    let mut r = RendererStateImp::new();
    let mut actions = Vec::new();
    let mut manager = SinglePixelBufferManager::new();
    let id = manager.create_buffer(&mut r, handle(5));
    assert_eq!(manager.buffers, vec![handle(5)]);
    let c = r.commit_buffer(handle(5), &mut actions);
    assert_eq!((c.id, c.width, c.height), (id, 1, 1));
    assert_eq!(actions, vec![Action::BufferRelease { buffer: handle(5) }]);
    manager.wl_buffer_cb(&mut r, handle(5));
    assert_eq!(manager.buffers, vec![]);
    r.buffer_unlock(id, &mut actions);
    assert_eq!(actions.len(), 1);
    assert!(format!("{:?}", r).contains("buffers: {}"));
    manager.create_buffer(&mut r, handle(6));
    manager.destroy(&mut r);
    assert!(format!("{:?}", r).contains("resource_mapping: {}, buffers: {}"));
}

#[test]
fn texture_is_in_use_from_the_start() {
    let mut r = RendererStateImp::new();
    let mut actions = Vec::new();
    let id = r.create_argb8_texture(24, 25);
    assert_eq!(r.get_buffer_size(id), (24, 25));
    r.buffer_unlock(id, &mut actions);
    assert_eq!(actions, vec![]);
    assert!(format!("{:?}", r).contains("buffers: {}"));
}

#[test]
fn pools_only_grow() {
    let mut r = RendererStateImp::new();
    r.add_pool(handle(1), 100);
    r.resize_pool(handle(1), 50);
    assert!(format!("{:?}", r).contains("size: 100"));
    r.resize_pool(handle(1), -1);
    assert!(format!("{:?}", r).contains("size: 100"));
    r.resize_pool(handle(1), 101);
    assert!(format!("{:?}", r).contains("size: 101"));
    r.destroy_pool(handle(1));
    assert!(format!("{:?}", r).contains("shm_pools: {}"));
}

#[test]
fn shm_requests_are_checked() {
    let mut r = RendererStateImp::new();
    let mut shm = Shm::new();
    assert_eq!(shm.create_pool(&mut r, handle(1), 0), Err(Error::PoolSizeNotPositive));
    assert_eq!(shm.create_pool(&mut r, handle(1), -5), Err(Error::PoolSizeNotPositive));
    assert_eq!(shm.create_pool(&mut r, handle(1), 48), Ok(()));
    assert_eq!(shm.shm_pools, vec![handle(1)]);
    assert_eq!(
        shm.wl_shm_pool_cb(&mut r, handle(1), create(2, ShmFormat::Other(7))),
        Err(Error::UnsupportedShmFormat)
    );
    assert_eq!(shm.wl_shm_pool_cb(&mut r, handle(1), create(2, ShmFormat::Xrgb8888)), Ok(()));
    assert_eq!(shm.wl_shm_pool_cb(&mut r, handle(1), create(3, ShmFormat::Argb8888)), Ok(()));
    assert_eq!(shm.wl_buffers, vec![handle(2), handle(3)]);
    assert_eq!(shm.wl_shm_pool_cb(&mut r, handle(1), ShmPoolRequest::Resize(96)), Ok(()));
    assert!(format!("{:?}", r).contains("size: 96, refcnt: 2, alive: true"));
    shm.wl_buffer_cb(&mut r, handle(2));
    assert_eq!(shm.wl_buffers, vec![handle(3)]);
    assert_eq!(shm.wl_shm_pool_cb(&mut r, handle(1), ShmPoolRequest::Destroy), Ok(()));
    assert_eq!(shm.shm_pools, vec![]);
    shm.destroy(&mut r);
    assert!(format!("{:?}", r).contains("shm_pools: {}, resource_mapping: {}, buffers: {}"));
}

#[test]
fn pixels_have_to_be_in_the_pool() {
    let s = ShmBufferSpec { offset: 16, ..spec(1, 2, 3) };
    assert_eq!(pixel_range(s, 40), Some((16, 24)));
    assert_eq!(pixel_range(s, 39), None);
    assert_eq!(pixel_range(ShmBufferSpec { stride: u32::MAX, height: u32::MAX, ..s }, usize::MAX >> 1), None);
}

#[test]
fn opaque_buffer_is_not_blended() {
    let mut region = Region::new();
    region.union_rect(Rect { x: 0, y: 0, width: 10, height: 10 });
    assert_eq!(buffer_operation(Some(&region), true, 10, 10), Operation::Src);
    assert_eq!(buffer_operation(Some(&region), false, 10, 10), Operation::Over);
    assert_eq!(buffer_operation(Some(&region), true, 11, 10), Operation::Over);
    assert_eq!(buffer_operation(None, true, 10, 10), Operation::Over);
}

#[test]
fn textures_of_shared_memory_are_released_at_once() {
    let mut r = GlRenderer::new();
    let mut actions = Vec::new();
    r.add_pool(handle(1), 100);
    r.create_shm_buffer(spec(1, 2, 3), handle(2));
    assert_eq!(r.shm_spec(handle(2)), Some(spec(1, 2, 3)));
    assert_eq!(r.shm_spec(handle(3)), None);
    let id = r.buffer_commited(handle(2), 77, &mut actions);
    assert_eq!(actions, vec![Action::BufferRelease { buffer: handle(2) }]);
    assert_eq!(r.get_buffer_size(id), (2, 3));
    r.buffer_lock(id);
    assert_eq!(r.buffer_unlock(id, &mut actions), None);
    assert_eq!(r.buffer_unlock(id, &mut actions), Some(77));
    assert_eq!(r.buffer_resource_destroyed(handle(2)), None);
    r.destroy_pool(handle(1));
    assert!(format!("{:?}", r).contains("shm_pools: {}, shm_buffers: {}"));
}

#[test]
fn shm_requests_reach_the_graphics_card() {
    let mut r = GlRenderer::new();
    let mut shm = Shm::new();
    let mut actions = Vec::new();
    assert_eq!(shm.gl_create_pool(&mut r, handle(1), 0), Err(Error::PoolSizeNotPositive));
    assert_eq!(shm.gl_create_pool(&mut r, handle(1), 100), Ok(()));
    assert_eq!(shm.shm_pools, vec![handle(1)]);
    assert_eq!(
        shm.gl_wl_shm_pool_cb(&mut r, handle(1), create(2, ShmFormat::Other(9))),
        Err(Error::UnsupportedShmFormat)
    );
    assert_eq!(shm.wl_buffers, vec![]);
    assert_eq!(shm.gl_wl_shm_pool_cb(&mut r, handle(1), create(2, ShmFormat::Argb8888)), Ok(()));
    assert_eq!(shm.gl_wl_shm_pool_cb(&mut r, handle(1), create(3, ShmFormat::Xrgb8888)), Ok(()));
    assert_eq!(shm.gl_wl_shm_pool_cb(&mut r, handle(1), ShmPoolRequest::Resize(50)), Ok(()));
    assert_eq!(r.shm_pool(handle(1)).unwrap().size, 100);
    assert_eq!(shm.gl_wl_shm_pool_cb(&mut r, handle(1), ShmPoolRequest::Resize(200)), Ok(()));
    assert_eq!(r.shm_pool(handle(1)).unwrap().size, 200);
    r.buffer_commited(handle(2), 77, &mut actions);
    assert_eq!(actions, vec![Action::BufferRelease { buffer: handle(2) }]);
    assert_eq!(shm.gl_wl_shm_pool_cb(&mut r, handle(1), ShmPoolRequest::Destroy), Ok(()));
    assert_eq!(shm.shm_pools, vec![]);
    assert_eq!(r.shm_pool(handle(1)).unwrap().refcnt, 2);
    shm.gl_wl_buffer_cb(&mut r, handle(2));
    assert_eq!(shm.wl_buffers, vec![handle(3)]);
    assert_eq!(r.shm_pool(handle(1)).unwrap().refcnt, 1);
    assert_eq!(shm.gl_create_pool(&mut r, handle(4), 10), Ok(()));
    shm.gl_destroy(&mut r);
    assert_eq!((r.shm_pool(handle(1)), r.shm_pool(handle(4))), (None, None));
}

#[test]
fn single_pixel_is_copied_to_the_graphics_card() {
    let mut r = GlRenderer::new();
    let mut actions = Vec::new();
    let mut manager = SinglePixelBufferManager::new();
    let color = Rgba { r: 1, g: 2, b: 3, a: 4 };
    manager.gl_create_buffer(&mut r, color, handle(5));
    assert_eq!(manager.buffers, vec![handle(5)]);
    assert_eq!((r.single_pix(handle(5)), r.shm_spec(handle(5))), (Some(color), None));
    assert_eq!(r.single_pix(handle(6)), None);
    let id = r.buffer_commited(handle(5), 77, &mut actions);
    assert_eq!(actions, vec![Action::BufferRelease { buffer: handle(5) }]);
    assert_eq!(r.get_buffer_size(id), (1, 1));
    manager.gl_wl_buffer_cb(&mut r, handle(5));
    assert_eq!(manager.buffers, vec![]);
    assert_eq!(r.single_pix(handle(5)), None);
    assert_eq!(r.buffer_unlock(id, &mut actions), Some(77));
    assert_eq!(actions.len(), 1);
    manager.gl_create_buffer(&mut r, color, handle(6));
    manager.gl_destroy(&mut r);
    assert_eq!(r.single_pix(handle(6)), None);
}

#[test]
fn imported_buffers_are_released_when_their_last_use_ends() {
    let mut r = GlRenderer::new();
    let mut actions = Vec::new();
    r.create_dma_buffer(9, 64, 32, handle(4));
    assert!(!r.is_in_use(handle(4)));
    let id = r.buffer_commited(handle(4), 0, &mut actions);
    assert_eq!(r.buffer_commited(handle(4), 0, &mut actions), id);
    assert!(r.is_in_use(handle(4)));
    assert_eq!(actions, vec![]);
    assert_eq!(r.get_buffer_size(id), (64, 32));
    assert_eq!(r.buffer_unlock(id, &mut actions), None);
    assert_eq!(r.buffer_unlock(id, &mut actions), None);
    assert_eq!(actions, vec![Action::BufferRelease { buffer: handle(4) }]);
    assert_eq!(r.buffer_resource_destroyed(handle(4)), Some(9));
}

#[test]
fn quads_are_drawn_when_all_texture_units_are_taken() {
    let rect = ScreenRect { x: 1, y: 2, width: 3, height: 4 };
    let mut batch = Batch::new(2);
    assert_eq!(batch.flush_quads(), vec![]);
    batch.render_rect(rect);
    assert_eq!(batch.render_buffer(rect), (vec![], 0));
    assert_eq!(batch.render_buffer(rect), (vec![], 1));
    let (first, unit) = batch.render_buffer(rect);
    assert_eq!(unit, 0);
    assert_eq!(first.len(), 18);
    assert_eq!(first[0], Vert { x: 1, y: 2, shade: Shade::Colour });
    assert_eq!(
        first[12..],
        [
            Vert { x: 1, y: 2, shade: Shade::Texture { unit: 1, right: false, bottom: false } },
            Vert { x: 4, y: 2, shade: Shade::Texture { unit: 1, right: true, bottom: false } },
            Vert { x: 4, y: 6, shade: Shade::Texture { unit: 1, right: true, bottom: true } },
            Vert { x: 4, y: 6, shade: Shade::Texture { unit: 1, right: true, bottom: true } },
            Vert { x: 1, y: 6, shade: Shade::Texture { unit: 1, right: false, bottom: true } },
            Vert { x: 1, y: 2, shade: Shade::Texture { unit: 1, right: false, bottom: false } },
        ]
    );
    assert_eq!(batch.flush_quads().len(), 6);
    assert_eq!(batch.render_buffer(rect).1, 0);
}

fn display(formats: FormatTable) -> EglDisplay {
    let extensions = EglExtensions::parse(
        b"EGL_EXT_image_dma_buf_import_modifiers EGL_KHR_no_config_context EGL_KHR_surfaceless_context",
    );
    EglDisplay::new(1, 5, extensions, formats).unwrap()
}

#[test]
fn formats_are_filtered_by_the_display() {
    let mut supported = FormatTable::new();
    supported.add_modifier(Fourcc(1), 10);
    supported.add_modifier(Fourcc(2), 20);
    let display = display(supported);
    let mut table = FormatTable::new();
    table.add_modifier(Fourcc(2), 20);
    table.add_modifier(Fourcc(2), 21);
    table.add_modifier(Fourcc(2), 20);
    table.add_modifier(Fourcc(3), 10);
    let filtered = filter_format_table(&display, &table);
    assert_eq!(filtered.entries().len(), 1);
    assert_eq!(filtered.get(Fourcc(2)), Some(&vec![20, 20]));
    assert!(filtered.is_format_supported(Fourcc(2), 20));
    assert!(!filtered.is_format_supported(Fourcc(3), 10));
    let pairs = vec![
        FormatPair { fourcc: Fourcc(1), modifier: 10 },
        FormatPair { fourcc: Fourcc(2), modifier: 20 },
        FormatPair { fourcc: Fourcc(9), modifier: 20 },
    ];
    let tranches = vec![
        Tranche { scanout: true, formats: vec![0] },
        Tranche { scanout: false, formats: vec![2, 1] },
    ];
    let collected = format_table_from_feedback(&display, &pairs, &tranches);
    assert_eq!(collected.entries().len(), 1);
    assert_eq!(collected.get(Fourcc(2)), Some(&vec![20]));
    assert_eq!(collected.get(Fourcc(1)), None);
}

fn args(plane_idx: u32, offset: u32) -> AddArgs {
    AddArgs { fd: 3, plane_idx, offset, stride: 64, modifier_hi: 1, modifier_lo: 2 }
}

#[test]
fn params_make_one_buffer() {
    let mut dmabuf = LinuxDmabuf::new();
    let params = handle(1);
    dmabuf.create_params(params);
    let create = |d: &mut LinuxDmabuf, w, h| d.create_immed(params, handle(2), w, h, 0x34325258).map(|s| s.planes);
    assert_eq!(create(&mut dmabuf, 4, 4), Err(Error::NoPlanes));
    assert_eq!(dmabuf.add_plane(params, args(4, 0)), Err(Error::PlaneIndexOutOfBounds));
    assert_eq!(dmabuf.add_plane(params, args(2, 8)), Ok(()));
    assert_eq!(dmabuf.add_plane(params, args(2, 9)), Err(Error::PlaneAlreadySet));
    assert_eq!(dmabuf.add_plane(params, args(0, 4)), Ok(()));
    assert_eq!(create(&mut dmabuf, 0, 4), Err(Error::InvalidBufferSize));
    assert_eq!(create(&mut dmabuf, 4, -1), Err(Error::InvalidBufferSize));
    let plane = |offset| Plane { fd: 3, offset, stride: 64, modifier: 0x1_0000_0002 };
    assert_eq!(create(&mut dmabuf, 4, 4), Ok(vec![plane(4), plane(8)]));
    assert_eq!(create(&mut dmabuf, 4, 4), Err(Error::ParamsUsed));
    assert_eq!(dmabuf.add_plane(params, args(1, 0)), Err(Error::ParamsUsed));
    dmabuf.destroy_params(params);
    assert_eq!(dmabuf.destroy(), vec![handle(2)]);
}

#[test]
fn imported_buffer_has_the_size_and_format_that_were_asked_for() {
    let mut dmabuf = LinuxDmabuf::new();
    dmabuf.create_params(handle(1));
    dmabuf.add_plane(handle(1), args(0, 0)).unwrap();
    let spec = dmabuf.create_immed(handle(1), handle(2), 5, 6, 7).unwrap();
    assert_eq!((spec.width, spec.height, spec.format), (5, 6, Fourcc(7)));
    dmabuf.wl_buffer_cb(handle(2));
    assert_eq!(dmabuf.destroy(), vec![]);
}

#[test]
fn pools_and_textures_can_be_looked_up() {
    let mut r = RendererStateImp::new();
    r.add_pool(handle(1), 100);
    assert_eq!(r.shm_pool(handle(1)).map(|p| p.size), Some(100));
    assert!(r.shm_pool(handle(2)).is_none());
    let id = r.create_argb8_texture(24, 25);
    assert!(r.buffer(id).is_some());
    assert!(r.buffer(BufferId(99)).is_none());
    let mut g = GlRenderer::new();
    g.add_pool(handle(1), 7);
    assert_eq!(g.shm_pool(handle(1)).map(|p| p.size), Some(7));
    let id = g.create_argb8_texture(5, 24, 25);
    assert_eq!(g.texture(id).map(|t| (t.gl_name, t.width, t.height)), Some((5, 24, 25)));
    assert!(g.texture(BufferId(99)).is_none());
}
