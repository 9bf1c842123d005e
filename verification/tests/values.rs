use ewc::backend::BufferId;
use ewc::buffer_transform::{BufferTransform, MatrixStep};
use ewc::client::{request_step, ClientId, EventsQueue, RequestStep, ToFlushSet};
use ewc::config::{config_dir, config_path};
use ewc::error::Error;
use ewc::event_loop::{Event, EventLoop, Poll};
use ewc::ewcdbg::parse_interests;
use ewc::focus_stack::FocusStack;
use ewc::globals::ewc_debug::Interest;
use ewc::protocol::{Fixed, Transform};
use ewc::region::{Rect, Region};
use ewc::scanner::{
    gen_doc, is_destructor, make_pascal_case_ident, request_shape, snake_to_pascal, split_once, ArgKind, CodeType,
    Decoding, DocLine, Encoding, RequestShape, WireType,
};
use ewc::server::{select_socket_name, socket_name};
use ewc::wayland_core::{Object, ObjectState};

fn rect(x: i32, y: i32, width: i32, height: i32) -> Rect {
    Rect { x, y, width, height }
}

fn chars(text: &str) -> Vec<char> {
    text.chars().collect()
}

#[test]
fn region_is_what_was_added_and_not_taken_away() {
    let mut region = Region::new();
    assert!(!region.contains_point(0, 0));
    region.union_rect(rect(0, 0, 10, 10));
    region.subtract_rect(rect(2, 2, 3, 3));
    region.union_rect(rect(3, 3, 1, 1));
    assert!(region.contains_point(0, 0));
    assert!(region.contains_point(9, 9));
    assert!(!region.contains_point(10, 9));
    assert!(!region.contains_point(2, 2));
    assert!(region.contains_point(3, 3));
    assert!(!region.contains_point(4, 4));
    let copy = region.copy();
    assert!(copy.contains_point(3, 3));
    assert!(!copy.contains_point(2, 4));
    assert_eq!(copy.ops().len(), 3);
}

#[test]
fn rectangle_without_size_is_empty() {
    let mut region = Region::new();
    region.union_rect(rect(0, 0, 0, 10));
    region.union_rect(rect(0, 0, 10, -1));
    region.union_rect(rect(i32::MAX - 1, 0, 5, 5));
    assert!(!region.contains_point(0, 0));
    assert!(!region.contains_point(i32::MAX - 1, 0));
}

#[test]
fn region_contains_rectangle_only_as_a_whole() {
    let mut region = Region::new();
    region.union_rect(rect(0, 0, 5, 10));
    region.union_rect(rect(5, 0, 5, 10));
    assert!(region.contains_rectangle(rect(0, 0, 10, 10)));
    assert!(region.contains_rectangle(rect(4, 4, 2, 2)));
    assert!(!region.contains_rectangle(rect(0, 0, 11, 10)));
    region.subtract_rect(rect(7, 7, 1, 1));
    assert!(!region.contains_rectangle(rect(0, 0, 10, 10)));
    assert!(region.contains_rectangle(rect(0, 0, 7, 10)));
    assert!(!region.contains_rectangle(rect(1, 1, 0, 1)));
    region.union_rect(rect(7, 7, 1, 1));
    assert!(region.contains_rectangle(rect(0, 0, 10, 10)));
}

#[test]
fn buffer_transform_swaps_sides_on_a_quarter_turn() {
    let t = BufferTransform::new(BufferId(7), 40, 20, Transform::Rotated90, 2, None, None).unwrap();
    assert_eq!(t.buf_id(), BufferId(7));
    assert_eq!((t.dst_width(), t.dst_height()), (10, 20));
    assert_eq!(
        t.surface_to_buffer(),
        vec![
            MatrixStep::Scale { num_x: 10 * 256, den_x: 10 * 256, num_y: 20 * 256, den_y: 20 * 256 },
            MatrixStep::Translate { x: 0, y: 0 },
            MatrixStep::Scale { num_x: 2, den_x: 1, num_y: 2, den_y: 1 },
            MatrixStep::Rotate { cos: 0, sin: -1 },
            MatrixStep::Translate { x: 0, y: 20 * 256 },
        ]
    );
    assert_eq!(
        t.surface_to_uv().last(),
        Some(&MatrixStep::Scale { num_x: 1, den_x: 40, num_y: 1, den_y: 20 })
    );
}

#[test]
fn buffer_transform_mirrors_and_turns() {
    let t = BufferTransform::new(BufferId(1), 8, 8, Transform::Flipped270, 1, None, None).unwrap();
    assert_eq!(
        t.surface_to_buffer()[3..],
        [
            MatrixStep::Scale { num_x: -1, den_x: 1, num_y: 1, den_y: 1 },
            MatrixStep::Translate { x: 8 * 256, y: 0 },
            MatrixStep::Rotate { cos: 0, sin: -1 },
            MatrixStep::Translate { x: 0, y: 8 * 256 },
            MatrixStep::Rotate { cos: -1, sin: 0 },
            MatrixStep::Translate { x: 8 * 256, y: 8 * 256 },
        ]
    );
}

/// Applies the steps to a point in units of 1/256 pixel.
fn image(steps: &[MatrixStep], mut x: f64, mut y: f64) -> (f64, f64) {
    for step in steps {
        match *step {
            MatrixStep::Scale { num_x, den_x, num_y, den_y } => {
                x = x * num_x as f64 / den_x as f64;
                y = y * num_y as f64 / den_y as f64;
            }
            MatrixStep::Translate { x: dx, y: dy } => {
                x += dx as f64;
                y += dy as f64;
            }
            MatrixStep::Rotate { cos, sin } => {
                let (c, s) = (cos as f64, sin as f64);
                (x, y) = (c * x - s * y, s * x + c * y);
            }
        }
    }
    (x, y)
}

#[test]
fn corners_of_a_surface_show_corners_of_its_buffer() {
    let all = [
        Transform::Normal,
        Transform::Rotated90,
        Transform::Rotated180,
        Transform::Rotated270,
        Transform::Flipped,
        Transform::Flipped180,
    ];
    for transform in all {
        let t = BufferTransform::new(BufferId(1), 60, 30, transform, 3, None, None).unwrap();
        let steps = t.surface_to_buffer();
        let (w, h) = (t.dst_width() as f64 * 256.0, t.dst_height() as f64 * 256.0);
        let mut corners = vec![
            image(&steps, 0.0, 0.0),
            image(&steps, w, 0.0),
            image(&steps, 0.0, h),
            image(&steps, w, h),
        ];
        corners.sort_by(|a, b| a.partial_cmp(b).unwrap());
        let (bw, bh) = (60.0 * 256.0, 30.0 * 256.0);
        assert_eq!(corners, vec![(0.0, 0.0), (0.0, bh), (bw, 0.0), (bw, bh)]);
    }
}

#[test]
fn points_of_a_surface_show_points_of_its_buffer() {
    let all = [
        (Transform::Normal, (1536.0, 768.0)),
        (Transform::Rotated90, (768.0, 6144.0)),
        (Transform::Rotated180, (13824.0, 6912.0)),
        (Transform::Rotated270, (14592.0, 1536.0)),
        (Transform::Flipped, (13824.0, 768.0)),
        (Transform::Flipped90, (768.0, -6144.0)),
        (Transform::Flipped180, (1536.0, 6912.0)),
        (Transform::Flipped270, (14592.0, 13824.0)),
    ];
    for (transform, point) in all {
        let t = BufferTransform::new(BufferId(1), 60, 30, transform, 3, None, None).unwrap();
        assert_eq!(image(&t.surface_to_buffer(), 512.0, 256.0), point);
    }
}

#[test]
fn buffer_transform_keeps_the_rules() {
    let new = |scale, src, dst| BufferTransform::new(BufferId(1), 40, 20, Transform::Normal, scale, src, dst);
    let px = |n: i32| Fixed(n * 256);
    assert_eq!(new(0, None, None), Err(Error::InvalidBufferScale));
    assert_eq!(new(-1, None, None), Err(Error::InvalidBufferScale));
    assert_eq!(new(3, None, None), Err(Error::BufferSizeNotMultipleOfScale));
    let out = Some((px(1), px(0), px(40), px(20)));
    assert_eq!(new(1, out, None), Err(Error::ViewportSrcOutOfBuffer));
    let half = Some((px(0), px(0), Fixed(128), px(20)));
    assert_eq!(new(1, half, None), Err(Error::ViewportSrcNotInt));
    let t = new(1, half, Some((5, 6))).unwrap();
    assert_eq!((t.dst_width(), t.dst_height()), (5, 6));
    assert_eq!((t.src_width, t.src_height), (128, 20 * 256));
    let t = new(1, Some((px(1), px(2), px(3), px(4))), None).unwrap();
    assert_eq!((t.dst_width(), t.dst_height()), (3, 4));
    assert_eq!((t.src_x, t.src_y), (256, 512));
    let t = new(2, None, None).unwrap();
    assert_eq!((t.dst_width(), t.dst_height(), t.scale), (20, 10, 2));
}

#[test]
fn focus_stack_raises_and_removes() {
    let mut stack = FocusStack::new();
    assert_eq!(stack.top(), None);
    stack.push(4);
    stack.push(7);
    stack.push(9);
    assert_eq!(stack.top(), Some(9));
    assert_eq!(stack.raise(0), 4);
    assert_eq!(stack.inner(), &vec![7, 9, 4]);
    assert_eq!(stack.get_i(1), Some(9));
    assert_eq!(stack.get_i(3), None);
    stack.remove(9);
    assert_eq!(stack.inner(), &vec![7, 4]);
}

#[test]
fn client_ids_follow_each_other() {
    let first = ClientId::first();
    let second = first.next();
    assert_ne!(first, second);
    assert_eq!(ClientId::first().next(), second);
    assert!(first < second);
}

#[test]
fn flush_set_holds_each_client_once() {
    let first = ClientId::first();
    let second = first.next();
    let mut set = ToFlushSet::new();
    set.add(first);
    set.add(second);
    set.add(first);
    assert_eq!(set.drain(), vec![first, second]);
    assert_eq!(set.drain(), vec![]);
}

#[test]
fn event_that_could_not_be_sent_is_the_next_one() {
    let client = ClientId::first();
    let mut set = ToFlushSet::new();
    let mut queue = EventsQueue::new();
    queue.send_event("a", client, &mut set);
    queue.send_event("b", client, &mut set);
    assert_eq!(set.drain(), vec![client]);
    let event = queue.take().unwrap();
    assert_eq!(event, "a");
    queue.put_back(event);
    assert_eq!(queue.take(), Some("a"));
    assert_eq!(queue.take(), Some("b"));
    assert_eq!(queue.take(), None);
}

#[test]
fn requests_for_dead_objects_are_ignored() {
    let alive = Object { id: 5, interface: 1, version: 1, key: 9, state: ObjectState::Alive };
    let dead = Object { state: ObjectState::Dead, ..alive };
    assert_eq!(request_step(alive, false), RequestStep::Handle);
    assert_eq!(request_step(alive, true), RequestStep::HandleAndDestroy);
    assert_eq!(request_step(dead, true), RequestStep::Ignore);
}

#[test]
fn event_loop_goes_idle_after_a_batch() {
    let mut events = EventLoop::new();
    assert_eq!(events.poll(), Poll::Wait);
    assert_eq!(events.next_id(), 0);
    events.add_fd(Event::Socket);
    events.add_fd(Event::Backend(3));
    events.add_fd(Event::Client(ClientId::first()));
    assert_eq!(events.poll(), Poll::Wait);
    events.happened(vec![2, 0, 2]);
    assert_eq!(events.poll(), Poll::Handle(Event::Client(ClientId::first())));
    assert_eq!(events.poll(), Poll::Handle(Event::Socket));
    assert_eq!(events.poll(), Poll::Handle(Event::Client(ClientId::first())));
    assert_eq!(events.poll(), Poll::Handle(Event::MayGoIdle));
    assert_eq!(events.poll(), Poll::Wait);
    events.happened(vec![1]);
    assert_eq!(events.poll(), Poll::Handle(Event::Backend(3)));
    assert_eq!(events.poll(), Poll::Handle(Event::MayGoIdle));
    assert_eq!(events.poll(), Poll::Wait);
}

#[test]
fn config_file_is_found_by_the_environment() {
    let text = |s: &str| Some(s.to_string());
    assert_eq!(config_dir(text("/x"), text("/home/u")), Some(vec!["/x".to_string()]));
    assert_eq!(
        config_path(None, text("/home/u")),
        Some(vec![
            "/home/u".to_string(),
            ".config".to_string(),
            "ewc".to_string(),
            "config.toml".to_string(),
        ])
    );
    assert_eq!(config_path(None, None), None);
}

#[test]
fn interests_are_named_by_arguments() {
    let args = |list: &[&str]| list.iter().map(|s| s.to_string()).collect::<Vec<_>>();
    assert_eq!(parse_interests(&args(&[])), None);
    assert_eq!(parse_interests(&args(&["frame"])), Some(Interest { frame_stat: true, messages: false }));
    assert_eq!(
        parse_interests(&args(&["message", "frame", "message"])),
        Some(Interest { frame_stat: true, messages: true })
    );
    assert_eq!(parse_interests(&args(&["frame", "frames"])), None);
}

#[test]
fn names_become_pascal_case() {
    assert_eq!(snake_to_pascal(&chars("wl_shm_pool")), chars("WlShmPool"));
    assert_eq!(snake_to_pascal(&chars("get_pointer")), chars("GetPointer"));
    assert_eq!(make_pascal_case_ident(&chars("90")), chars("_90"));
    assert_eq!(make_pascal_case_ident(&chars("flipped_90")), chars("Flipped90"));
    assert_eq!(split_once(&chars("wl_output.transform")), Some((chars("wl_output"), chars("transform"))));
    assert_eq!(split_once(&chars("a.b.c")), Some((chars("a"), chars("b.c"))));
    assert_eq!(split_once(&chars("anchor")), None);
}

#[test]
fn arguments_are_laid_out_by_their_types() {
    let wl_surface = || Some(chars("wl_surface"));
    let object = |allow_null, iface| ArgKind::Object { allow_null, iface };
    assert_eq!(ArgKind::Enum(chars("error")).map_arg_to_argtype(), WireType::Uint);
    assert_eq!(object(true, wl_surface()).map_arg_to_argtype(), WireType::OptObject);
    assert_eq!(ArgKind::NewId { iface: None }.map_arg_to_argtype(), WireType::AnyNewId);
    assert_eq!(ArgKind::Text { allow_null: true }.map_arg_to_argtype().name(), "OptString");
    assert_eq!(object(false, wl_surface()).arg_decode(), Decoding::Lookup);
    assert_eq!(object(true, wl_surface()).arg_decode(), Decoding::OptLookup);
    assert_eq!(object(false, None).arg_decode(), Decoding::Plain);
    assert_eq!(ArgKind::NewId { iface: None }.arg_decode(), Decoding::AnyNewId);
    assert_eq!(ArgKind::Enum(chars("error")).arg_decode(), Decoding::EnumValue);
    assert_eq!(object(true, wl_surface()).msg_arg(), Encoding::OptObjectId);
    assert_eq!(ArgKind::NewId { iface: wl_surface() }.msg_arg(), Encoding::ObjectId);
    assert_eq!(ArgKind::Fd.msg_arg(), Encoding::Plain);
    assert_eq!(ArgKind::Enum(chars("wl_output.transform")).as_request_ty(), CodeType::OtherEnum);
    assert_eq!(ArgKind::Enum(chars("anchor")).as_request_ty(), CodeType::OwnEnum);
    assert_eq!(object(true, None).as_request_ty(), CodeType::OptAnyObject);
    assert_eq!(ArgKind::Array.as_request_ty(), CodeType::Bytes);
    assert_eq!(request_shape(0), RequestShape::Unit);
    assert_eq!(request_shape(1), RequestShape::Single);
    assert_eq!(request_shape(2), RequestShape::Struct);
    assert!(is_destructor(&Some("destructor".to_string())));
    assert!(!is_destructor(&Some("other".to_string())));
    assert!(!is_destructor(&None));
}

#[test]
fn documentation_has_an_empty_line_after_each_part() {
    assert_eq!(gen_doc(false, 0, None), vec![DocLine::Blank, DocLine::Blank, DocLine::Blank]);
    assert_eq!(
        gen_doc(true, 2, Some(4)),
        vec![
            DocLine::Summary,
            DocLine::Blank,
            DocLine::Text(0),
            DocLine::Text(1),
            DocLine::Blank,
            DocLine::Since(4),
            DocLine::Blank,
        ]
    );
}

#[test]
fn first_free_socket_name_is_taken() {
    assert_eq!(socket_name(3), "wayland-3");
    assert_eq!(select_socket_name(&vec![false; 10]), Some("wayland-0"));
    let mut taken = vec![true; 10];
    assert_eq!(select_socket_name(&taken), None);
    taken[9] = false;
    assert_eq!(select_socket_name(&taken), Some("wayland-9"));
}

#[test]
fn errors_say_what_is_wrong() {
    assert_eq!(Error::BadMessage.message(), "failed to parse message");
    assert_eq!(Error::SurfaceHasRole.message(), "surface already has a role");
    assert_eq!(Error::PopupNotTop.message(), "destroyed popup must be the top one");
    assert_eq!(
        Error::ReservedObjectId { id: 0xff000000 }.message(),
        "client used object id 4278190080 which is reserved for server-side objects"
    );
    assert_eq!(Error::SkippedObjectId { id: 10 }.message(), "client used object id 10 but 9 was never used");
}
