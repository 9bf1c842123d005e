use ewc::backend::BufferId;
use ewc::buffer_transform::BufferTransform;
use ewc::client::ClientId;
use ewc::dispatch::Request;
use ewc::draw::{round_pixels, DrawOp, ScreenRect};
use ewc::error::Error;
use ewc::globals::compositor::{CommitedMask, CommittedBuffer, CommittedMaskBit, SurfaceRole, SurfaceState};
use ewc::globals::compositor_requests::{RegionRequest, SubsurfaceRequest, SurfaceRequest, ViewportRequest};
use ewc::globals::xdg_shell::positioner::{PositionerRequest, RawPositioner};
use ewc::globals::xdg_shell::requests::{ToplevelStateRequest, XdgSurfaceRequest};
use ewc::globals::xdg_shell::toplevel::XdgToplevelRole;
use ewc::globals::xdg_shell::{Box32, SpecificRole, WindowGeometry};
use ewc::protocol::{Action, Anchor, Fixed, Gravity, Handle, ResizeEdge, Resource, Transform};
use ewc::region::Rect;
use ewc::seat::keyboard::ModsState;
use ewc::seat::Seat;
use ewc::state::State;
use ewc::surface_tree::{TreeLine, TreeRole};
use ewc::windows::{PopupRequest, ToplevelRequest};

const MODS: ModsState = ModsState { depressed: 0, latched: 0, locked: 0, group: 0 };

fn client() -> ClientId {
    ClientId::first()
}

fn handle(key: u64) -> Handle {
    Handle { client: client(), key }
}

fn new_state() -> State {
    State::new(Seat::new(MODS))
}

fn buffer(id: u64, width: u32, height: u32) -> Option<CommittedBuffer> {
    Some(CommittedBuffer { id: BufferId(id), width, height })
}

/// Handles a request and gives what is sent.
fn ask(st: &mut State, request: Request) -> Result<Vec<Action>, Error> {
    let mut actions = Vec::new();
    st.try_handle(client(), request, &mut actions).unwrap().map(|()| actions)
}

fn ok(st: &mut State, request: Request) -> Vec<Action> {
    ask(st, request).unwrap()
}

fn surface(st: &mut State) -> usize {
    st.compositor.create_surface(client(), 6)
}

fn attach(key: u64) -> SurfaceRequest {
    SurfaceRequest::Attach { buffer: Some(handle(key)), x: 0, y: 0 }
}

/// Makes a surface a toplevel; the objects get numbers after `key`.
fn toplevel(st: &mut State, i: usize, key: u64) {
    ok(st, Request::GetXdgSurface { surface: i, wl: handle(key) });
    let t = Resource { handle: handle(key + 1), version: 5 };
    ok(st, Request::XdgSurface(i, XdgSurfaceRequest::GetToplevel(t)));
}

/// Brings a toplevel with a buffer of a size to the screen.
fn show(st: &mut State, i: usize, key: u64, width: u32, height: u32) {
    toplevel(st, i, key);
    ok(st, Request::Commit(i, None));
    ok(st, Request::XdgSurface(i, XdgSurfaceRequest::AckConfigure(1)));
    ok(st, Request::Surface(i, attach(key + 2)));
    ok(st, Request::Commit(i, buffer(key, width, height)));
}

fn window(st: &State, i: usize) -> &XdgToplevelRole {
    st.compositor.surfaces.get(i).get_xdg_surface().unwrap().get_toplevel().unwrap()
}

#[test]
fn mask_remembers_what_was_set() {
    let mut a = CommitedMask::new();
    assert!(a.empty());
    a.set(CommittedMaskBit::Buffer);
    a.set(CommittedMaskBit::Scale);
    let mut b = CommitedMask::new();
    b.set(CommittedMaskBit::FrameCb);
    b.merge(a);
    assert!(b.contains(CommittedMaskBit::Buffer));
    assert!(b.contains(CommittedMaskBit::FrameCb));
    assert!(!b.contains(CommittedMaskBit::Transform));
    b.clear();
    assert!(b.empty());
}

#[test]
fn applying_a_state_twice_changes_nothing_more() {
    let mut src = SurfaceState::new();
    let mut dst = SurfaceState::new();
    let mut actions = Vec::new();
    dst.buffer = buffer(1, 4, 4);
    src.buffer = buffer(2, 8, 8);
    src.mask.set(CommittedMaskBit::Buffer);
    src.scale = Some(2);
    src.mask.set(CommittedMaskBit::Scale);
    src.transform = Some(Transform::Flipped);
    src.apply_to_and_clear(&mut dst, &mut actions);
    assert_eq!(actions, vec![Action::UnlockBuffer { buffer: BufferId(1) }]);
    assert_eq!(dst.buffer, buffer(2, 8, 8));
    assert_eq!(dst.scale, Some(2));
    assert_eq!(dst.transform, None);
    assert!(src.mask.empty());
    src.apply_to_and_clear(&mut dst, &mut actions);
    assert_eq!(actions.len(), 1);
    assert_eq!(dst.buffer, buffer(2, 8, 8));
}

#[test]
fn nothing_is_shown_before_a_commit() {
    let mut st = new_state();
    let i = surface(&mut st);
    ok(&mut st, Request::Surface(i, attach(9)));
    ok(&mut st, Request::Surface(i, SurfaceRequest::SetBufferScale(2)));
    assert_eq!(st.compositor.surfaces.get(i).buf_transform(), None);
    assert_eq!(st.compositor.buffer_to_commit(i), Some(handle(9)));
    ok(&mut st, Request::Commit(i, buffer(1, 40, 20)));
    let t = st.compositor.surfaces.get(i).buf_transform().unwrap();
    assert_eq!((t.dst_width(), t.dst_height()), (20, 10));
    assert_eq!(st.compositor.buffer_to_commit(i), None);
    ok(&mut st, Request::Surface(i, attach(9)));
    assert_eq!(ok(&mut st, Request::Commit(i, buffer(2, 40, 20))), vec![Action::UnlockBuffer { buffer: BufferId(1) }]);
}

#[test]
fn commit_checks_buffer_and_scale() {
    let mut st = new_state();
    let i = surface(&mut st);
    ok(&mut st, Request::Surface(i, attach(9)));
    ok(&mut st, Request::Surface(i, SurfaceRequest::SetBufferScale(3)));
    assert_eq!(ask(&mut st, Request::Commit(i, buffer(1, 40, 20))), Err(Error::BufferSizeNotMultipleOfScale));
    ok(&mut st, Request::Surface(i, SurfaceRequest::SetBufferScale(0)));
    assert_eq!(ask(&mut st, Request::Commit(i, None)), Err(Error::InvalidBufferScale));
}

#[test]
fn offset_of_an_attached_buffer_is_refused_in_new_versions() {
    let mut st = new_state();
    let i = surface(&mut st);
    let request = SurfaceRequest::Attach { buffer: None, x: 1, y: 0 };
    assert_eq!(ask(&mut st, Request::Surface(i, request)), Err(Error::AttachOffset));
    let old = st.compositor.create_surface(client(), 4);
    assert_eq!(st.try_handle(client(), Request::Surface(old, request), &mut Vec::new()), None);
    let request = SurfaceRequest::Attach { buffer: None, x: 0, y: 0 };
    assert_eq!(ask(&mut st, Request::Surface(old, request)), Ok(vec![]));
}

#[test]
fn surface_has_one_role() {
    let mut st = new_state();
    let (a, b) = (surface(&mut st), surface(&mut st));
    toplevel(&mut st, a, 10);
    assert_eq!(ask(&mut st, Request::GetXdgSurface { surface: a, wl: handle(20) }), Err(Error::SurfaceHasRole));
    assert_eq!(ask(&mut st, Request::GetSubsurface { surface: a, parent: b }), Err(Error::SurfaceHasRole));
    let cursor = Request::SetCursor { surface: Some(a), hotspot_x: 0, hotspot_y: 0 };
    assert_eq!(ask(&mut st, cursor), Err(Error::SurfaceHasRole));
    let again = XdgSurfaceRequest::GetToplevel(Resource { handle: handle(21), version: 5 });
    assert_eq!(ask(&mut st, Request::XdgSurface(a, again)), Err(Error::XdgSurfaceHasRole));
    assert_eq!(ask(&mut st, Request::DestroySurface(a)), Err(Error::DestroyedBeforeRole));
    assert_eq!(ask(&mut st, Request::DestroySurface(b)), Ok(vec![]));
    assert_eq!(ask(&mut st, Request::DestroyWmBase), Err(Error::XdgSurfacesRemain));
    let destroy = || XdgSurfaceRequest::Destroy;
    assert_eq!(ask(&mut st, Request::XdgSurface(a, destroy())), Err(Error::XdgSurfaceDestroyedBeforeRole));
    ok(&mut st, Request::Toplevel(a, ToplevelRequest::Destroy));
    ok(&mut st, Request::XdgSurface(a, destroy()));
    assert_eq!(ask(&mut st, Request::DestroyWmBase), Ok(vec![]));
    assert_eq!(ask(&mut st, Request::DestroySurface(a)), Ok(vec![]));
}

#[test]
fn window_is_shown_after_its_configure_was_acknowledged() {
    let mut st = new_state();
    let i = surface(&mut st);
    toplevel(&mut st, i, 10);
    assert_eq!(
        ok(&mut st, Request::Commit(i, None)),
        vec![
            Action::ToplevelConfigure { toplevel: handle(11), width: 0, height: 0, activated: false },
            Action::XdgSurfaceConfigure { xdg_surface: handle(10), serial: 1 },
        ]
    );
    ok(&mut st, Request::Surface(i, attach(12)));
    assert_eq!(ask(&mut st, Request::Commit(i, buffer(1, 100, 50))), Err(Error::InitialConfigureNotAcked));
    ok(&mut st, Request::XdgSurface(i, XdgSurfaceRequest::AckConfigure(1)));
    ok(&mut st, Request::Commit(i, None));
    assert_eq!(st.focus_stack.inner(), &vec![i]);
    assert!(st.compositor.surfaces.get(i).mapped);
    assert_eq!((window(&st, i).x, window(&st, i).y), (20, 20));
    let geometry = WindowGeometry { x: 0, y: 0, width: 100, height: 50 };
    assert_eq!(st.compositor.surfaces.get(i).get_xdg_surface().unwrap().get_window_geometry(), Some(geometry));
    let other = surface(&mut st);
    show(&mut st, other, 20, 30, 30);
    assert_eq!(st.focus_stack.inner(), &vec![i, other]);
    assert_eq!((window(&st, other).x, window(&st, other).y), (70, 70));
}

#[test]
fn window_without_configure_has_no_buffer() {
    let mut st = new_state();
    let i = surface(&mut st);
    toplevel(&mut st, i, 10);
    ok(&mut st, Request::Surface(i, attach(12)));
    assert_eq!(ask(&mut st, Request::Commit(i, buffer(1, 4, 4))), Err(Error::UnmappedSurfaceBuffer));
}

#[test]
fn window_without_buffer_is_not_shown() {
    let mut st = new_state();
    let i = surface(&mut st);
    show(&mut st, i, 10, 100, 50);
    ok(&mut st, Request::Surface(i, SurfaceRequest::Attach { buffer: None, x: 0, y: 0 }));
    assert_eq!(ok(&mut st, Request::Commit(i, None)), vec![Action::UnlockBuffer { buffer: BufferId(10) }]);
    assert_eq!(st.focus_stack.inner().len(), 0);
    assert!(!st.compositor.surfaces.get(i).mapped);
}

#[test]
fn limits_of_a_window_take_effect_with_a_commit() {
    let mut st = new_state();
    let i = surface(&mut st);
    show(&mut st, i, 10, 100, 50);
    let max = |w, h| Request::Toplevel(i, ToplevelRequest::Describe(ToplevelStateRequest::SetMaxSize { width: w, height: h }));
    let min = |w, h| Request::Toplevel(i, ToplevelRequest::Describe(ToplevelStateRequest::SetMinSize { width: w, height: h }));
    assert_eq!(ask(&mut st, max(-1, 0)), Err(Error::MaxSizeNegative));
    assert_eq!(ask(&mut st, min(0, -1)), Err(Error::MinSizeNegative));
    ok(&mut st, max(200, 0));
    ok(&mut st, min(50, 60));
    assert_eq!(window(&st, i).cur.max_size, None);
    ok(&mut st, Request::Commit(i, None));
    assert_eq!(window(&st, i).cur.max_size, Some((200, 0)));
    let mut t = XdgToplevelRole::new(handle(1));
    t.cur.min_size = Some((50, 60));
    t.cur.max_size = Some((200, 0));
    t.request_size(true, Some(WindowGeometry { x: 0, y: 0, width: 100, height: 50 }), ResizeEdge::Right, 300, 10);
    let c = t.pending_configure.unwrap();
    assert_eq!((c.width, c.heinght, c.serial), (200, 60, 1));
}

#[test]
fn opposite_edge_stays_where_it_is_during_a_resize() {
    let mut t = XdgToplevelRole::new(handle(1));
    (t.x, t.y) = (100, 100);
    let before = WindowGeometry { x: 5, y: 5, width: 80, height: 40 };
    assert_eq!(before.get_opposite_edge_point(ResizeEdge::TopLeft), (80, 40));
    assert_eq!(before.get_opposite_edge_point(ResizeEdge::BottomRight), (0, 0));
    t.request_size(true, Some(before), ResizeEdge::TopLeft, 100, 60);
    let serial = t.pending_configure.unwrap().serial;
    let mut actions = Vec::new();
    t.apply_pending_configure(handle(2), &mut actions);
    assert_eq!(
        actions,
        vec![
            Action::ToplevelConfigure { toplevel: handle(1), width: 100, height: 60, activated: false },
            Action::XdgSurfaceConfigure { xdg_surface: handle(2), serial },
        ]
    );
    let after = WindowGeometry { x: 5, y: 5, width: 100, height: 60 };
    t.commit_resize(after, Some(serial));
    assert_eq!((t.x, t.y), (80, 80));
    let corner = |g: WindowGeometry, x, y| {
        let p = g.get_opposite_edge_point(ResizeEdge::TopLeft);
        (x + p.0, y + p.1)
    };
    assert_eq!(corner(before, 100, 100), corner(after, t.x, t.y));
    assert_eq!(t.resizing, None);
}

#[test]
fn geometry_of_a_window_is_clipped_to_its_surface() {
    let mut st = new_state();
    let i = surface(&mut st);
    toplevel(&mut st, i, 10);
    let set = |w, h| Request::XdgSurface(i, XdgSurfaceRequest::SetWindowGeometry { x: 10, y: 10, width: w, height: h });
    assert_eq!(ask(&mut st, set(0, 10)), Err(Error::WindowGeometryNotPositive));
    assert_eq!(ask(&mut st, set(10, -10)), Err(Error::WindowGeometryNotPositive));
    ok(&mut st, Request::Commit(i, None));
    ok(&mut st, Request::XdgSurface(i, XdgSurfaceRequest::AckConfigure(1)));
    ok(&mut st, set(200, 20));
    ok(&mut st, Request::Surface(i, attach(12)));
    ok(&mut st, Request::Commit(i, buffer(1, 100, 50)));
    let geometry = WindowGeometry { x: 10, y: 10, width: 90, height: 20 };
    assert_eq!(st.compositor.surfaces.get(i).get_xdg_surface().unwrap().get_window_geometry(), Some(geometry));
    let outside = XdgSurfaceRequest::SetWindowGeometry { x: 500, y: 500, width: 1, height: 1 };
    ok(&mut st, Request::XdgSurface(i, outside));
    assert!(st.try_handle(client(), Request::Commit(i, None), &mut Vec::new()).is_none());
}

#[test]
fn boxes_join_and_meet() {
    let a = Box32 { x1: 0, y1: 0, x2: 10, y2: 10 };
    let b = Box32 { x1: 0, y1: 0, x2: 4, y2: 4 };
    assert_eq!(a.extend(b, (8, -2)), Box32 { x1: 0, y1: -2, x2: 12, y2: 10 });
    assert_eq!(a.clip(Box32 { x1: 5, y1: -5, x2: 20, y2: 5 }), Box32 { x1: 5, y1: 0, x2: 10, y2: 5 });
    let g = WindowGeometry { x: 1, y: 2, width: 3, height: 4 };
    assert_eq!(g.to_box(), Box32 { x1: 1, y1: 2, x2: 4, y2: 6 });
    assert_eq!(WindowGeometry::from_box(g.to_box()), Some(g));
    assert_eq!(WindowGeometry::from_box(Box32 { x1: 1, y1: 2, x2: 1, y2: 6 }), None);
}

#[test]
fn commit_of_a_synchronized_subsurface_waits_for_its_parent() {
    let mut st = new_state();
    let (parent, child) = (surface(&mut st), surface(&mut st));
    ok(&mut st, Request::GetSubsurface { surface: child, parent });
    ok(&mut st, Request::Subsurface(child, SubsurfaceRequest::SetPosition { x: 3, y: 4 }));
    ok(&mut st, Request::Surface(child, attach(30)));
    ok(&mut st, Request::Commit(child, buffer(1, 8, 8)));
    assert!(st.compositor.surfaces.effective_is_sync(child));
    assert_eq!(st.compositor.surfaces.get(child).cur.buffer, None);
    ok(&mut st, Request::Surface(child, attach(30)));
    assert_eq!(ok(&mut st, Request::Commit(child, buffer(2, 8, 8))), vec![Action::UnlockBuffer { buffer: BufferId(1) }]);
    ok(&mut st, Request::Surface(child, SurfaceRequest::SetBufferScale(2)));
    ok(&mut st, Request::Commit(child, None));
    ok(&mut st, Request::Surface(parent, attach(31)));
    ok(&mut st, Request::Commit(parent, buffer(3, 10, 10)));
    let s = st.compositor.surfaces.get(child);
    assert_eq!((s.cur.buffer, s.cur.scale), (buffer(2, 8, 8), Some(2)));
    assert_eq!(
        st.compositor.surfaces.get_bounding_box(parent),
        Some(Box32 { x1: 0, y1: 0, x2: 10, y2: 10 })
    );
    ok(&mut st, Request::Subsurface(child, SubsurfaceRequest::SetDesync));
    assert!(!st.compositor.surfaces.effective_is_sync(child));
    ok(&mut st, Request::Surface(child, attach(30)));
    ok(&mut st, Request::Commit(child, buffer(4, 20, 20)));
    assert_eq!(st.compositor.surfaces.get(child).cur.buffer, buffer(4, 20, 20));
    assert_eq!(
        st.compositor.surfaces.get_bounding_box(parent),
        Some(Box32 { x1: 0, y1: 0, x2: 13, y2: 14 })
    );
}

#[test]
fn subsurfaces_are_put_above_and_below_each_other() {
    let mut st = new_state();
    let parent = surface(&mut st);
    let (a, b, other) = (surface(&mut st), surface(&mut st), surface(&mut st));
    ok(&mut st, Request::GetSubsurface { surface: a, parent });
    ok(&mut st, Request::GetSubsurface { surface: b, parent });
    let order = |st: &State| st.compositor.surfaces.get(parent).cur.subsurfaces.iter().map(|n| n.surface).collect::<Vec<_>>();
    let moved = || Request::Subsurface(b, SubsurfaceRequest::SetPosition { x: 1, y: 1 });
    ok(&mut st, Request::Commit(parent, None));
    assert_eq!(order(&st), vec![a, b]);
    ok(&mut st, Request::Subsurface(a, SubsurfaceRequest::PlaceAbove(b)));
    ok(&mut st, moved());
    assert_eq!(order(&st), vec![a, b]);
    ok(&mut st, Request::Commit(parent, None));
    assert_eq!(order(&st), vec![b, a]);
    ok(&mut st, Request::Subsurface(a, SubsurfaceRequest::PlaceBelow(b)));
    ok(&mut st, moved());
    ok(&mut st, Request::Commit(parent, None));
    assert_eq!(order(&st), vec![a, b]);
    assert_eq!(ask(&mut st, Request::Subsurface(b, SubsurfaceRequest::PlaceAbove(other))), Err(Error::NotASibling));
}

#[test]
fn surface_is_not_below_itself() {
    let mut st = new_state();
    let (a, b) = (surface(&mut st), surface(&mut st));
    ok(&mut st, Request::GetSubsurface { surface: b, parent: a });
    assert!(st.compositor.surfaces.is_below(b, a));
    assert!(!st.compositor.surfaces.is_below(a, b));
    let mut actions = Vec::new();
    assert_eq!(st.try_handle(client(), Request::GetSubsurface { surface: a, parent: b }, &mut actions), None);
    assert_eq!(st.try_handle(client(), Request::DestroySurface(77), &mut actions), None);
    assert_eq!(st.try_handle(client().next(), Request::DestroySurface(a), &mut actions), None);
}

#[test]
fn subsurface_ends_with_its_object() {
    let mut st = new_state();
    let (parent, child) = (surface(&mut st), surface(&mut st));
    ok(&mut st, Request::GetSubsurface { surface: child, parent });
    assert_eq!(ask(&mut st, Request::DestroySurface(child)), Err(Error::DestroyedBeforeRole));
    ok(&mut st, Request::Subsurface(child, SubsurfaceRequest::Destroy));
    assert!(matches!(st.compositor.surfaces.get(child).role, SurfaceRole::NoRole));
    assert_eq!(ask(&mut st, Request::DestroySurface(child)), Ok(vec![]));
}

#[test]
fn viewport_crops_and_scales() {
    let mut st = new_state();
    let i = surface(&mut st);
    ok(&mut st, Request::GetViewport(i));
    assert_eq!(ask(&mut st, Request::GetViewport(i)), Err(Error::SurfaceHasViewport));
    let px = |n: i32| Fixed(n * 256);
    let source = |x, y, width, height| Request::Viewport(0, ViewportRequest::SetSource { x, y, width, height });
    let size = |width, height| Request::Viewport(0, ViewportRequest::SetDestination { width, height });
    assert_eq!(ask(&mut st, source(px(-2), px(0), px(1), px(1))), Err(Error::InvalidViewportSrc));
    assert_eq!(ask(&mut st, source(px(0), px(0), px(0), px(1))), Err(Error::InvalidViewportSrc));
    assert_eq!(ask(&mut st, size(0, 4)), Err(Error::InvalidViewportDst));
    ok(&mut st, source(px(1), px(2), px(3), px(4)));
    ok(&mut st, Request::Surface(i, attach(9)));
    ok(&mut st, Request::Commit(i, buffer(1, 10, 10)));
    let t = st.compositor.surfaces.get(i).buf_transform().unwrap();
    assert_eq!((t.src_x, t.src_y, t.dst_width(), t.dst_height()), (256, 512, 3, 4));
    ok(&mut st, size(30, 40));
    ok(&mut st, Request::Commit(i, None));
    let t = st.compositor.surfaces.get(i).buf_transform().unwrap();
    assert_eq!((t.dst_width(), t.dst_height()), (30, 40));
    ok(&mut st, source(px(-1), px(-1), px(-1), px(-1)));
    ok(&mut st, size(-1, -1));
    ok(&mut st, Request::Commit(i, None));
    let t = st.compositor.surfaces.get(i).buf_transform().unwrap();
    assert_eq!((t.src_x, t.dst_width(), t.dst_height()), (0, 10, 10));
    ok(&mut st, Request::Viewport(0, ViewportRequest::Destroy));
    ok(&mut st, Request::GetViewport(i));
    assert_eq!(st.compositor.surfaces.get(i).viewport, Some(1));
}

#[test]
fn viewport_of_a_dead_surface_cannot_be_used() {
    let mut st = new_state();
    st.compositor.viewporters.push(None);
    let set = ViewportRequest::SetDestination { width: 1, height: 1 };
    assert_eq!(st.compositor.wp_viewport_cb(0, set), Err(Error::ViewportSurfaceDead));
}

/// Gives the rules of a popup of 40 by 20.
fn positioner(st: &mut State) -> usize {
    let k = st.compositor.create_positioner();
    for request in [
        PositionerRequest::SetSize { width: 40, height: 20 },
        PositionerRequest::SetAnchorRect { x: 10, y: 10, width: 30, height: 10 },
        PositionerRequest::SetAnchor(Anchor::BottomLeft),
        PositionerRequest::SetGravity(Gravity::BottomRight),
    ] {
        ok(st, Request::Positioner(k, request));
    }
    k
}

/// Makes a surface a popup of another one and brings it to the screen.
fn popup(st: &mut State, parent: usize, key: u64) -> usize {
    let k = positioner(st);
    let i = surface(st);
    ok(st, Request::GetXdgSurface { surface: i, wl: handle(key) });
    ok(st, Request::XdgSurface(i, XdgSurfaceRequest::GetPopup { popup: handle(key + 1), parent, positioner: k }));
    assert_eq!(
        ok(st, Request::Commit(i, None)),
        vec![
            Action::PopupConfigure { popup: handle(key + 1), x: 10, y: 20, width: 40, height: 20 },
            Action::XdgSurfaceConfigure { xdg_surface: handle(key), serial: 0 },
        ]
    );
    ok(st, Request::Surface(i, attach(key + 2)));
    ok(st, Request::XdgSurface(i, XdgSurfaceRequest::AckConfigure(0)));
    ok(st, Request::Commit(i, buffer(key, 40, 20)));
    i
}

#[test]
fn popup_is_placed_by_its_rules() {
    let mut raw = Some(RawPositioner::new());
    let mut set = |request| ewc::globals::xdg_shell::positioner::xdg_positioner_cb(&mut raw, request);
    assert_eq!(set(PositionerRequest::SetSize { width: 0, height: 1 }), Err(Error::PositionerInvalidSize));
    assert_eq!(set(PositionerRequest::SetSize { width: 40, height: 21 }), Ok(()));
    assert_eq!(set(PositionerRequest::SetAnchorRect { x: 100, y: 100, width: 30, height: 10 }), Ok(()));
    let mut p = ewc::globals::xdg_shell::positioner::Positioner::from_raw(raw.unwrap()).unwrap();
    assert_eq!(p.get_position(), (115 - 20, 105 - 10));
    p.anchor = Some(Anchor::TopRight);
    assert_eq!(p.get_position(), (130 - 20, 100 - 10));
    p.gravity = Some(Gravity::TopLeft);
    assert_eq!(p.get_position(), (130 - 40, 100 - 21));
    p.gravity = Some(Gravity::BottomRight);
    assert_eq!(p.get_position(), (130, 100));
}

#[test]
fn rules_of_a_popup_have_to_be_complete() {
    let mut st = new_state();
    let parent = surface(&mut st);
    show(&mut st, parent, 10, 100, 50);
    let i = surface(&mut st);
    ok(&mut st, Request::GetXdgSurface { surface: i, wl: handle(20) });
    let k = st.compositor.create_positioner();
    let get = || Request::XdgSurface(i, XdgSurfaceRequest::GetPopup { popup: handle(21), parent, positioner: k });
    assert_eq!(ask(&mut st, get()), Err(Error::PositionerSizeNotSet));
    ok(&mut st, Request::Positioner(k, PositionerRequest::SetSize { width: 4, height: 4 }));
    assert_eq!(ask(&mut st, get()), Err(Error::PositionerAnchorRectNotSet));
    ok(&mut st, Request::Positioner(k, PositionerRequest::SetAnchorRect { x: 0, y: 0, width: 1, height: 1 }));
    assert_eq!(ask(&mut st, get()), Ok(vec![]));
    ok(&mut st, Request::Commit(i, None));
    assert_eq!(ask(&mut st, Request::Commit(i, None)), Err(Error::NoInitialBuffer));
    ok(&mut st, Request::Surface(i, attach(22)));
    assert_eq!(ask(&mut st, Request::Commit(i, buffer(1, 4, 4))), Err(Error::InitialConfigureNotAcked));
}

#[test]
fn only_the_popup_on_top_may_be_destroyed() {
    let mut st = new_state();
    let parent = surface(&mut st);
    show(&mut st, parent, 10, 100, 50);
    let a = popup(&mut st, parent, 20);
    let b = popup(&mut st, a, 30);
    assert_eq!(st.popup_stack, vec![handle(21), handle(31)]);
    assert_eq!(st.compositor.surfaces.get_pos(a), Some((30, 40)));
    ok(&mut st, Request::Popup(b, PopupRequest::Destroy));
    assert_eq!(st.popup_stack, vec![handle(21)]);
    assert!(!st.compositor.surfaces.get(b).mapped);
    let c = popup(&mut st, a, 40);
    assert_eq!(ask(&mut st, Request::Popup(a, PopupRequest::Destroy)), Err(Error::PopupNotTop));
    assert!(st.compositor.surfaces.get(c).mapped);
}

#[test]
fn popup_can_be_placed_anew() {
    let mut st = new_state();
    let parent = surface(&mut st);
    show(&mut st, parent, 10, 100, 50);
    let i = popup(&mut st, parent, 20);
    let k = positioner(&mut st);
    ok(&mut st, Request::Positioner(k, PositionerRequest::SetAnchor(Anchor::TopLeft)));
    assert_eq!(
        ok(&mut st, Request::Popup(i, PopupRequest::Reposition { positioner: k, token: 5 })),
        vec![
            Action::PopupRepositioned { popup: handle(21), token: 5 },
            Action::PopupConfigure { popup: handle(21), x: 10, y: 10, width: 40, height: 20 },
            Action::XdgSurfaceConfigure { xdg_surface: handle(20), serial: 1 },
        ]
    );
    ok(&mut st, Request::Popup(i, PopupRequest::Grab));
    assert_eq!(st.seat.keyboard.focused_surface(), Some(st.compositor.surfaces.get(i).wl));
    match &st.compositor.surfaces.get(i).get_xdg_surface().unwrap().specific {
        SpecificRole::Popup(p) => assert!(p.grab),
        _ => unreachable!(),
    }
}

#[test]
fn frame_is_drawn_from_bottom_to_top() {
    let mut st = new_state();
    let (parent, child) = (surface(&mut st), surface(&mut st));
    ok(&mut st, Request::GetSubsurface { surface: child, parent });
    ok(&mut st, Request::Subsurface(child, SubsurfaceRequest::SetPosition { x: 5, y: 6 }));
    ok(&mut st, Request::Surface(child, attach(30)));
    ok(&mut st, Request::Surface(child, SurfaceRequest::Frame(handle(40))));
    ok(&mut st, Request::Commit(child, buffer(1, 8, 8)));
    show(&mut st, parent, 10, 100, 50);
    let mut ops = Vec::new();
    let mut actions = Vec::new();
    st.draw_frame(123, &mut ops, &mut actions);
    assert_eq!(actions, vec![Action::CallbackDone { callback: handle(40), data: 123 }]);
    let transform = |id, w, h| BufferTransform::new(BufferId(id), w, h, Transform::Normal, 1, None, None).unwrap();
    let surfaces: Vec<_> = ops.iter().filter(|op| matches!(op, DrawOp::Surface { .. })).cloned().collect();
    assert_eq!(ops[0], DrawOp::Clear);
    assert_eq!(surfaces.len(), 2);
    match surfaces[0] {
        DrawOp::Surface { surface, transform: t, x, y, .. } => {
            assert_eq!((surface, x, y), (parent, 20, 20));
            assert_eq!(t, transform(10, 100, 50));
        }
        _ => unreachable!(),
    }
    match surfaces[1] {
        DrawOp::Surface { surface, transform: t, x, y, .. } => {
            assert_eq!((surface, x, y), (child, 25, 26));
            assert_eq!(t, transform(1, 8, 8));
        }
        _ => unreachable!(),
    }
    st.draw_frame(124, &mut ops, &mut actions);
    assert_eq!(actions.len(), 1);
    assert!(ops.iter().any(|op| matches!(op, DrawOp::Border { rect: ScreenRect { width: 104 | 100, .. }, .. })));
}

#[test]
fn points_are_rounded_to_pixels() {
    assert_eq!(round_pixels(0), 0);
    assert_eq!(round_pixels(127), 0);
    assert_eq!(round_pixels(128), 1);
    assert_eq!(round_pixels(-127), 0);
    assert_eq!(round_pixels(-128), -1);
    assert_eq!(round_pixels(256 * 7 + 200), 8);
}

#[test]
fn input_goes_to_the_surface_that_takes_it() {
    let mut st = new_state();
    let (parent, child) = (surface(&mut st), surface(&mut st));
    ok(&mut st, Request::GetSubsurface { surface: child, parent });
    ok(&mut st, Request::Subsurface(child, SubsurfaceRequest::SetPosition { x: 50, y: 0 }));
    ok(&mut st, Request::Surface(child, attach(30)));
    let region = st.compositor.create_region();
    ok(&mut st, Request::Region(region, RegionRequest::Add(Rect { x: 0, y: 0, width: 10, height: 10 })));
    ok(&mut st, Request::Surface(child, SurfaceRequest::SetInputRegion(Some(region))));
    ok(&mut st, Request::Region(region, RegionRequest::Subtract(Rect { x: 0, y: 0, width: 10, height: 10 })));
    ok(&mut st, Request::Commit(child, buffer(1, 20, 20)));
    show(&mut st, parent, 10, 100, 50);
    let at = |st: &State, x: i32, y: i32| st.focus_stack.surface_at(&st.compositor.surfaces, Fixed(x * 256), Fixed(y * 256));
    let hit = at(&st, 75, 25).unwrap();
    assert_eq!((hit.surf, hit.sx, hit.sy, hit.toplevel_idx), (child, 5 * 256, 5 * 256, 0));
    let hit = at(&st, 85, 25).unwrap();
    assert_eq!((hit.surf, hit.sx, hit.sy), (parent, 65 * 256, 5 * 256));
    assert_eq!(at(&st, 19, 25), None);
    assert_eq!(at(&st, 120, 25), None);
}

#[test]
fn tree_of_a_client_is_listed() {
    let mut st = new_state();
    let (parent, child) = (surface(&mut st), surface(&mut st));
    let stranger = st.compositor.create_surface(client().next(), 6);
    ok(&mut st, Request::GetSubsurface { surface: child, parent });
    ok(&mut st, Request::Subsurface(child, SubsurfaceRequest::SetPosition { x: 3, y: 4 }));
    show(&mut st, parent, 10, 100, 50);
    let wl = |i: usize| st.compositor.surfaces.get(i).wl;
    assert_eq!(
        st.compositor.surfaces.client_surface_tree(client()),
        vec![
            TreeLine::Surface { surface: wl(parent), role: TreeRole::Xdg, size: Some((100, 50)) },
            TreeLine::Down,
            TreeLine::Surface { surface: wl(child), role: TreeRole::Subsurface { x: 3, y: 4 }, size: None },
            TreeLine::Up,
        ]
    );
    assert_eq!(
        st.compositor.surfaces.client_surface_tree(client().next()),
        vec![TreeLine::Surface { surface: wl(stranger), role: TreeRole::NoRole, size: None }]
    );
}

#[test]
fn subsurface_is_not_shown_by_itself() {
    let mut st = new_state();
    let parent = surface(&mut st);
    let child = surface(&mut st);
    show(&mut st, parent, 10, 100, 50);
    ok(&mut st, Request::GetSubsurface { surface: child, parent });
    ok(&mut st, Request::Surface(child, attach(30)));
    ok(&mut st, Request::Commit(child, buffer(3, 10, 10)));
    ok(&mut st, Request::Commit(parent, None));
    let before = format!("{:?}", st);
    let mut actions = Vec::new();
    st.unmap(child, &mut actions);
    assert_eq!(actions, vec![]);
    assert_eq!(format!("{:?}", st), before);
}
