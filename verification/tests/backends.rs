use ewc::backend::drmkms::{
    choose_connector, choose_plane, parse_drm_format_modifier_blob, read_u32, read_u64, show_mode, turn_off,
    BackendImp, ByteOrder, DeviceInput, DrmObject, DrmSetting, DrmValue, SeatAction, DEVICE,
};
use ewc::backend::wayland::{BufferChoice, GlSwapchain, PointerReport, State};
use ewc::backend::{choose_renderer, next_id, BackendEvent, InputTimestamp, KeyboardId, PointerId, Renderer};
use ewc::eglgbm::drm::DrmDevice;
use ewc::eglgbm::egl::{
    get_supported_formats, ContextAttr, EglContextBuilder, EglDisplay, EglExtensions, QueriedFormat,
};
use ewc::eglgbm::gbm::{join_modifier, split_modifier, BufferExport, BufferPlane, ImageAttr};
use ewc::eglgbm::{EglError, FormatTable, Fourcc, GraphicsApi};
use ewc::libseat::Event;
use ewc::protocol::{Fixed, PressState};

const TIME: InputTimestamp = InputTimestamp(1000);

/// A list of formats and modifiers, as the kernel lays it out.
fn blob(formats: &[u32], modifiers: &[(u64, u32, u64)]) -> Vec<u8> {
    let mut b = Vec::new();
    let formats_offset = 24;
    let modifiers_offset = formats_offset + 4 * formats.len() as u32;
    for x in [1, 0, formats.len() as u32, formats_offset, modifiers.len() as u32, modifiers_offset] {
        b.extend(x.to_le_bytes());
    }
    for f in formats {
        b.extend(f.to_le_bytes());
    }
    for (mask, offset, modifier) in modifiers {
        b.extend(mask.to_le_bytes());
        b.extend(offset.to_le_bytes());
        b.extend(0u32.to_le_bytes());
        b.extend(modifier.to_le_bytes());
    }
    b
}

#[test]
fn numbers_are_read_in_the_byte_order_of_the_machine() {
    let bytes = [1, 2, 3, 4, 5, 6, 7, 8, 9];
    assert_eq!(read_u32(ByteOrder::Little, &bytes, 1), 0x05040302);
    assert_eq!(read_u32(ByteOrder::Big, &bytes, 1), 0x02030405);
    assert_eq!(read_u64(ByteOrder::Little, &bytes, 0), 0x0807060504030201);
    assert_eq!(read_u64(ByteOrder::Big, &bytes, 1), 0x0203040506070809);
}

#[test]
fn modifier_blob_is_a_format_table() {
    let b = blob(&[100, 200, 300], &[(0b101, 0, 7), (0b11, 1, 8)]);
    let table = parse_drm_format_modifier_blob(ByteOrder::Little, &b).unwrap();
    assert_eq!(table.entries().len(), 3);
    assert_eq!(table.get(Fourcc(100)), Some(&vec![7]));
    assert_eq!(table.get(Fourcc(200)), Some(&vec![8]));
    assert_eq!(table.get(Fourcc(300)), Some(&vec![7, 8]));
    assert_eq!(table.get(Fourcc(400)), None);
}

#[test]
fn modifiers_keep_their_order_and_are_repeated() {
    let b = blob(&[100, 200, 100], &[(0b101, 0, 9), (0b1, 0, 4), (0b11, 0, 9)]);
    let table = parse_drm_format_modifier_blob(ByteOrder::Little, &b).unwrap();
    assert_eq!(table.get(Fourcc(100)), Some(&vec![9, 9, 4, 9]));
    assert_eq!(table.get(Fourcc(200)), Some(&vec![9]));
}

#[test]
fn modifier_blob_has_to_be_whole() {
    let parse = |b: &[u8]| parse_drm_format_modifier_blob(ByteOrder::Little, b).is_some();
    let b = blob(&[100], &[(1, 0, 7)]);
    assert!(parse(&b));
    assert!(!parse(&b[..b.len() - 1]));
    assert!(!parse(&b[..23]));
    assert!(!parse(&blob(&[100], &[(2, 0, 7)])));
    assert!(!parse(&blob(&[100], &[(1, 1, 7)])));
    assert!(parse(&blob(&[], &[])));
}

#[test]
fn last_connected_screen_and_first_primary_plane_are_chosen() {
    assert_eq!(choose_connector(&vec![true, true, false]), Some(1));
    assert_eq!(choose_connector(&vec![false]), None);
    assert_eq!(choose_plane(&vec![false, true]), 1);
    assert_eq!(choose_plane(&vec![false, false]), 0);
}

#[test]
fn screen_is_turned_on_and_off() {
    let on = show_mode(1920, 1080, 1);
    assert_eq!(on.len(), 13);
    let find = |object, property| on.iter().find(|s| s.object == object && s.property == property).unwrap().value;
    assert_eq!(find(DrmObject::Connector, "CRTC_ID"), DrmValue::Crtc);
    assert_eq!(find(DrmObject::Crtc, "ACTIVE"), DrmValue::Boolean(true));
    assert_eq!(find(DrmObject::Plane, "FB_ID"), DrmValue::Framebuffer(1));
    assert_eq!(find(DrmObject::Plane, "SRC_W"), DrmValue::Unsigned(1920 << 16));
    assert_eq!(find(DrmObject::Plane, "SRC_H"), DrmValue::Unsigned(1080 << 16));
    assert_eq!(find(DrmObject::Plane, "CRTC_W"), DrmValue::Unsigned(1920));
    assert_eq!(find(DrmObject::Plane, "CRTC_Y"), DrmValue::Signed(0));
    assert_eq!(
        turn_off(DrmObject::Crtc),
        vec![
            DrmSetting { object: DrmObject::Crtc, property: "MODE_ID", value: DrmValue::Off },
            DrmSetting { object: DrmObject::Crtc, property: "ACTIVE", value: DrmValue::Boolean(false) },
        ]
    );
    assert_eq!(turn_off(DrmObject::Connector).len(), 1);
    assert_eq!(turn_off(DrmObject::Plane).len(), 2);
}

#[test]
fn frames_alternate_between_two_buffers() {
    let mut b = BackendImp::new();
    assert_eq!(b.render_frame(), Some(0));
    assert_eq!(b.render_frame(), Some(1));
    assert_eq!(b.render_frame(), Some(0));
    assert_eq!(b.seat_event(Event::Enable), SeatAction::Nothing);
    assert_eq!(b.seat_event(Event::Disable), SeatAction::Suspend);
    assert_eq!(b.render_frame(), None);
    assert_eq!(b.seat_event(Event::Enable), SeatAction::Resume(1));
    assert_eq!(b.render_frame(), Some(1));
}

#[test]
fn reports_of_devices_come_out_in_order() {
    let mut b = BackendImp::new();
    b.page_flipped();
    b.device_input(DeviceInput::Key { time: TIME, key: 30, state: PressState::Pressed });
    b.device_input(DeviceInput::Other);
    b.device_input(DeviceInput::Motion { time: TIME, dx: Fixed(256), dy: Fixed(-512) });
    b.device_input(DeviceInput::Button { time: TIME, btn: 0x110, state: PressState::Released });
    b.device_input(DeviceInput::ScrollWheel { time: TIME, vertical: None });
    assert_eq!(b.next_event(), Some(BackendEvent::Frame));
    assert_eq!(b.next_event(), Some(BackendEvent::KeyPressed(KeyboardId(DEVICE), TIME, 30)));
    let motion = BackendEvent::PointerMotionRelative(PointerId(DEVICE), TIME, Fixed(256), Fixed(-512));
    assert_eq!(b.next_event(), Some(motion));
    assert_eq!(b.next_event(), Some(BackendEvent::PointerBtnRelease(PointerId(DEVICE), TIME, 0x110)));
    assert_eq!(b.next_event(), Some(BackendEvent::PointerAxisVertial(PointerId(DEVICE), TIME, Fixed(0))));
    assert_eq!(b.next_event(), None);
}

#[test]
fn window_asks_for_one_frame_at_a_time() {
    let mut w = State::new();
    w.surface_configured();
    w.surface_configured();
    assert_eq!(w.next_event(), Some(BackendEvent::Frame));
    assert_eq!(w.next_event(), None);
    w.begin_frame();
    assert!(w.throttled);
    assert_eq!(w.next_event(), None);
    w.frame_shown();
    assert!(!w.throttled);
    assert_eq!(w.next_event(), Some(BackendEvent::Frame));
    let (width, height) = (w.width, w.height);
    w.toplevel_configured(0, 0);
    assert_eq!((w.width, w.height), (width, height));
    w.toplevel_configured(640, 0);
    assert_eq!((w.width, w.height), (640, height));
    w.toplevel_closed();
    assert_eq!(w.next_event(), Some(BackendEvent::ShutDown));
}

#[test]
fn keys_held_on_entry_are_not_reported_when_released() {
    let mut w = State::new();
    w.keyboard_added(10, 1);
    assert_eq!(w.next_event(), Some(BackendEvent::NewKeyboard(KeyboardId(1))));
    w.keyboard_enter(0, ByteOrder::Little, &[30, 0, 0, 0, 31, 0, 0, 0, 9]);
    assert_eq!(w.keyboards[0].entered_with_keys, vec![30, 31]);
    w.keyboard_key(0, TIME, 30, PressState::Released);
    assert_eq!(w.next_event(), None);
    w.keyboard_key(0, TIME, 30, PressState::Pressed);
    assert_eq!(w.next_event(), Some(BackendEvent::KeyPressed(KeyboardId(1), TIME, 30)));
    assert_eq!(w.keyboards[0].pressed_keys, vec![30]);
    w.keyboard_key(0, TIME, 30, PressState::Released);
    assert_eq!(w.next_event(), Some(BackendEvent::KeyReleased(KeyboardId(1), TIME, 30)));
    assert_eq!(w.keyboards[0].pressed_keys, vec![]);
    assert_eq!(w.keyboard_removed(1), 10);
    assert_eq!(w.next_event(), Some(BackendEvent::KeyboardRemoved(KeyboardId(1))));
    assert_eq!(w.keyboards.len(), 0);
}

#[test]
fn pointer_of_the_window_is_reported() {
    let mut w = State::new();
    w.pointer_added(11, 1);
    let id = w.pointers[0].id;
    assert_eq!(w.next_event(), Some(BackendEvent::NewPointer(id)));
    w.pointer_report(id, PointerReport::Motion { time: TIME, x: Fixed(1), y: Fixed(2) });
    assert_eq!(w.next_event(), Some(BackendEvent::PointerMotionAbsolute(id, TIME, Fixed(1), Fixed(2))));
    w.pointer_report(id, PointerReport::Axis { time: TIME, vertical: false, value: Fixed(3) });
    assert_eq!(w.next_event(), None);
    w.pointer_report(id, PointerReport::Axis { time: TIME, vertical: true, value: Fixed(3) });
    assert_eq!(w.next_event(), Some(BackendEvent::PointerAxisVertial(id, TIME, Fixed(3))));
    w.pointer_report(id, PointerReport::Button { time: TIME, btn: 5, state: PressState::Pressed });
    assert_eq!(w.next_event(), Some(BackendEvent::PointerBtnPress(id, TIME, 5)));
    w.pointer_report(id, PointerReport::Other);
    assert_eq!(w.next_event(), None);
    assert_eq!(w.pointer_removed(1), 11);
    assert_eq!(w.next_event(), Some(BackendEvent::PointerRemoved(id)));
}

#[test]
fn drawn_buffer_is_not_on_the_screen() {
    let mut chain = GlSwapchain::new(100, 50);
    assert!(chain.fits(100, 50));
    assert!(!chain.fits(100, 51));
    assert_eq!(chain.next_buffer(), BufferChoice::Allocate);
    chain.show_new(7);
    assert_eq!(chain.next_buffer(), BufferChoice::Allocate);
    chain.show_new(8);
    assert_eq!(chain.next_buffer(), BufferChoice::Skip);
    chain.released(8);
    assert_eq!(chain.next_buffer(), BufferChoice::Reuse(1));
    chain.released(7);
    assert_eq!(chain.next_buffer(), BufferChoice::Reuse(0));
    chain.show(0);
    assert_eq!(chain.next_buffer(), BufferChoice::Reuse(1));
}

#[test]
fn numbers_are_given_once() {
    let mut id = 4;
    assert_eq!(next_id(&mut id), 4);
    assert_eq!(next_id(&mut id), 5);
    assert_eq!(id, 6);
    assert_eq!(TIME.get(), 1000);
}

#[test]
fn display_needs_version_and_extensions() {
    let all = "EGL_EXT_image_dma_buf_import_modifiers EGL_KHR_no_config_context EGL_KHR_surfaceless_context";
    let new = |major, minor, text: &str| {
        EglDisplay::new(major, minor, EglExtensions::parse(text.as_bytes()), FormatTable::new()).map(|_| ())
    };
    assert_eq!(new(1, 5, all), Ok(()));
    assert_eq!(new(2, 0, all), Ok(()));
    assert_eq!(new(1, 4, all), Err(EglError::OldEgl(1, 4)));
    assert_eq!(
        new(1, 5, "EGL_EXT_image_dma_buf_import_modifiers EGL_KHR_surfaceless_context"),
        Err(EglError::ExtensionUnsupported("EGL_KHR_no_config_context"))
    );
    assert_eq!(new(1, 5, ""), Err(EglError::ExtensionUnsupported("EGL_EXT_image_dma_buf_import_modifiers")));
    let ext = EglExtensions::parse(b"EGL_A EGL_AB");
    assert!(ext.contains("EGL_AB"));
    assert!(!ext.contains("EGL_B"));
    assert_eq!(ext.require("EGL_A"), Ok(()));
}

#[test]
fn only_renderable_formats_are_supported() {
    let queried = vec![
        QueriedFormat { fourcc: Fourcc(1), renderable: true, mods: vec![5, 6] },
        QueriedFormat { fourcc: Fourcc(2), renderable: false, mods: vec![5] },
    ];
    let table = get_supported_formats(&queried);
    assert_eq!(table.get(Fourcc(1)), Some(&vec![5, 6]));
    assert_eq!(table.get(Fourcc(2)), None);
    assert!(table.is_format_supported(Fourcc(1), 6));
    assert!(!table.is_format_supported(Fourcc(1), 7));
}

#[test]
fn processor_draws_where_the_graphics_card_cannot() {
    assert_eq!(choose_renderer(false, true), Renderer::OpenGl);
    assert_eq!(choose_renderer(true, true), Renderer::Pixman);
    assert_eq!(choose_renderer(false, false), Renderer::Pixman);
    assert_eq!(choose_renderer(true, false), Renderer::Pixman);
}

#[test]
fn context_is_built_step_by_step() {
    let b = EglContextBuilder::new(GraphicsApi::OpenGlEs).version(3, 2).debug(true);
    assert_eq!(
        b.context_attrs(),
        vec![ContextAttr::MajorVersion(3), ContextAttr::MinorVersion(2), ContextAttr::Debug(true)]
    );
    assert_eq!(b, EglContextBuilder { api: GraphicsApi::OpenGlEs, major_v: 3, minor_v: 2, debug: true });
    assert_eq!(
        EglContextBuilder::new(GraphicsApi::OpenGl),
        EglContextBuilder { api: GraphicsApi::OpenGl, major_v: 1, minor_v: 0, debug: false }
    );
}

#[test]
fn formats_have_a_text() {
    assert_eq!(Fourcc(0x34325258).text(), vec!['X', 'R', '2', '4']);
}

#[test]
fn modifiers_are_split_and_joined() {
    assert_eq!(split_modifier(0x0123_4567_89ab_cdef), (0x0123_4567, 0x89ab_cdef));
    assert_eq!(join_modifier(0x0123_4567, 0x89ab_cdef), 0x0123_4567_89ab_cdef);
}

#[test]
fn exported_buffer_is_described_by_its_planes() {
    let plane = |n: u32| BufferPlane { dmabuf: n as i32, handle: 10 + n, offset: 20 + n, stride: 30 + n };
    let export = BufferExport {
        width: 4,
        height: 5,
        format: Fourcc(6),
        modifier: 0x7_0000_0008,
        planes: vec![plane(1), plane(2)],
    };
    assert_eq!(export.pitches(), [31, 32, 0, 0]);
    assert_eq!(export.handles(), [11, 12, 0, 0]);
    assert_eq!(export.offsets(), [21, 22, 0, 0]);
    let attrs = export.image_attrs();
    assert_eq!(attrs[..3], [ImageAttr::Width(4), ImageAttr::Height(5), ImageAttr::Fourcc(6)]);
    assert_eq!(
        attrs[8..],
        [
            ImageAttr::PlaneFd(1, 2),
            ImageAttr::PlaneOffset(1, 22),
            ImageAttr::PlanePitch(1, 32),
            ImageAttr::PlaneModifierLo(1, 8),
            ImageAttr::PlaneModifierHi(1, 7),
        ]
    );
}

#[test]
fn device_has_the_nodes_that_are_available() {
    let nodes = vec!["/dev/dri/card0".to_string(), String::new(), "/dev/dri/renderD128".to_string()];
    let device = DrmDevice { available_nodes: 0b101, nodes };
    assert_eq!(device.render_node().unwrap(), "/dev/dri/renderD128");
    assert_eq!(device.get_node(0).unwrap(), "/dev/dri/card0");
    assert_eq!(device.get_node(1), None);
    assert_eq!(DrmDevice { available_nodes: 0b1, nodes: vec!["/dev/dri/card0".to_string()] }.render_node(), None);
}
