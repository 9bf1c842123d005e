use ewc::backend::BufferId;
use ewc::client::ClientId;
use ewc::cursor::{choose_image, get_texture, load_image, Cursor, CursorImage, Kind, Shape, Texture};
use ewc::dispatch::Request;
use ewc::globals::compositor::CommittedBuffer;
use ewc::globals::compositor_requests::{Compositor, SurfaceRequest};
use ewc::globals::cursor_shape::{shape_device_cb, ShapeDeviceRequest};
use ewc::protocol::Handle;
use ewc::seat::keyboard::ModsState;
use ewc::seat::Seat;
use ewc::state::State;

/// A cursor file with one image for each size, each with the hotspot (1, 2), all of whose pixels
/// have the given value.
fn cursor_file(images: &[(u32, u32, u32, u32)]) -> Vec<u8> {
    let mut file = b"Xcur".to_vec();
    let put = |file: &mut Vec<u8>, words: &[u32]| {
        for w in words {
            file.extend(w.to_le_bytes());
        }
    };
    put(&mut file, &[16, 0x1_0000, images.len() as u32]);
    let mut at = 16 + 12 * images.len() as u32;
    for (size, width, height, _) in images {
        put(&mut file, &[0xfffd_0002, *size, at]);
        at += 36 + 4 * width * height;
    }
    for (size, width, height, pixel) in images {
        put(&mut file, &[36, 0xfffd_0002, *size, 1, *width, *height, 1, 2, 50]);
        for _ in 0..width * height {
            put(&mut file, &[*pixel]);
        }
    }
    file
}

fn image(size: u32) -> CursorImage {
    CursorImage { size, width: size, height: size, xhot: 0, yhot: 0, pixels_rgba: vec![] }
}

fn texture(n: u64) -> Texture {
    Texture { buffer_id: BufferId(n), hx: 1, hy: 2, w: 24, h: 24 }
}

#[test]
fn image_is_read_from_a_cursor_file() {
    let file = cursor_file(&[(16, 1, 2, 0x11223344), (32, 2, 3, 0xaabbccdd)]);
    let image = load_image(&file).unwrap();
    assert_eq!((image.size, image.width, image.height), (32, 2, 3));
    assert_eq!((image.xhot, image.yhot), (1, 2));
    assert_eq!(image.pixels_rgba.len(), 4 * 2 * 3);
    assert_eq!(image.pixels_rgba[..4], [0xdd, 0xcc, 0xbb, 0xaa]);
    assert_eq!(
        get_texture(&image, BufferId(9)),
        Texture { buffer_id: BufferId(9), hx: 1, hy: 2, w: 2, h: 3 }
    );
}

#[test]
fn other_files_hold_no_image() {
    assert!(load_image(b"").is_none());
    assert!(load_image(b"Xcuq\0\0\0\0\0\0\0\0\0\0\0\0").is_none());
    assert!(load_image(&cursor_file(&[])).is_none());
    let file = cursor_file(&[(24, 2, 2, 7)]);
    assert!(load_image(&file[..file.len() - 1]).is_none());
}

#[test]
fn smallest_image_that_is_large_enough_is_chosen() {
    let choose = |sizes: &[u32]| choose_image(&sizes.iter().map(|s| image(*s)).collect());
    assert_eq!(choose(&[]), None);
    assert_eq!(choose(&[16, 48, 24, 32]), Some(2));
    assert_eq!(choose(&[16, 48, 32]), Some(2));
    assert_eq!(choose(&[24, 24]), Some(0));
    assert_eq!(choose(&[8, 20, 12]), Some(1));
    assert_eq!(choose(&[20, 20]), Some(1));
}

#[test]
fn shapes_have_names_of_files() {
    assert_eq!(Shape::Default.name(), "default");
    assert_eq!(Shape::NwseResize.name(), "nwse-resize");
    assert_eq!(Shape::all().len(), 34);
    let names: Vec<_> = Shape::all().iter().map(|s| s.name()).collect();
    for (i, name) in names.iter().enumerate() {
        assert!(!names[..i].contains(name));
    }
}

#[test]
fn shape_that_is_not_there_is_shown_as_the_default_one() {
    let mut cursor = Cursor::new();
    cursor.add_shape(Shape::Default, texture(1));
    cursor.add_shape(Shape::Text, texture(2));
    cursor.set_shape(Shape::Text);
    assert_eq!(cursor.kind, Kind::Texture(texture(2)));
    cursor.set_shape(Shape::Grab);
    assert_eq!(cursor.kind, Kind::Texture(texture(1)));
    let compositor = Compositor::new();
    assert_eq!(cursor.get_buffer(&compositor.surfaces), Some((BufferId(1), 1, 2, 24, 24)));
    cursor.set_hidden();
    assert_eq!(cursor.get_buffer(&compositor.surfaces), None);
    shape_device_cb(&mut cursor, ShapeDeviceRequest::Destroy);
    assert_eq!(cursor.kind, Kind::Hidden);
    shape_device_cb(&mut cursor, ShapeDeviceRequest::SetShape(Shape::Text));
    assert_eq!(cursor.kind, Kind::Texture(texture(2)));
}

#[test]
fn surface_is_shown_at_the_pointer() {
    let client = ClientId::first();
    let mods = ModsState { depressed: 0, latched: 0, locked: 0, group: 0 };
    let mut st = State::new(Seat::new(mods));
    st.cursor.add_shape(Shape::Default, texture(1));
    let i = st.compositor.create_surface(client, 6);
    let mut actions = Vec::new();
    let cursor = || Request::SetCursor { surface: Some(i), hotspot_x: 3, hotspot_y: 4 };
    assert_eq!(st.try_handle(client, cursor(), &mut actions), Some(Ok(())));
    assert_eq!(st.cursor.get_buffer(&st.compositor.surfaces), None);
    let attach = SurfaceRequest::Attach { buffer: Some(Handle { client, key: 5 }), x: 0, y: 0 };
    assert_eq!(st.try_handle(client, Request::Surface(i, attach), &mut actions), Some(Ok(())));
    let buffer = CommittedBuffer { id: BufferId(7), width: 20, height: 10 };
    assert_eq!(st.try_handle(client, Request::Commit(i, Some(buffer)), &mut actions), Some(Ok(())));
    assert_eq!(st.cursor.get_buffer(&st.compositor.surfaces), Some((BufferId(7), 3, 4, 20, 10)));
    assert_eq!(st.try_handle(client, cursor(), &mut actions), Some(Ok(())));
    st.cursor.remove_client(&st.compositor.surfaces, client.next());
    assert!(matches!(st.cursor.kind, Kind::Surface { .. }));
    st.cursor.remove_client(&st.compositor.surfaces, client);
    assert_eq!(st.cursor.kind, Kind::Hidden);
    st.cursor.set_shape(Shape::Default);
    let hide = Request::SetCursor { surface: None, hotspot_x: 0, hotspot_y: 0 };
    assert_eq!(st.try_handle(client, hide, &mut actions), Some(Ok(())));
    assert_eq!(st.cursor.kind, Kind::Hidden);
}
