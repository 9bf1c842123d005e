use ewc::backend::{BackendEvent, BufferId, InputTimestamp, KeyboardId, PointerId};
use ewc::client::ClientId;
use ewc::dispatch::Request;
use ewc::error::Error;
use ewc::globals::compositor::CommittedBuffer;
use ewc::globals::compositor_requests::SurfaceRequest;
use ewc::globals::xdg_shell::requests::XdgSurfaceRequest;
use ewc::input::{key_action, KeyAction, KEY_ESCAPE, KEY_SWITCH_VT_1};
use ewc::poll_backend::{BackendOutcome, KeyInfo};
use ewc::protocol::{Action, Fixed, Handle, PressState, ResizeEdge, Resource};
use ewc::seat::events::{remove_resource, remove_resources_of};
use ewc::seat::keyboard::ModsState;
use ewc::seat::pointer::{Pointer, PtrState, BTN_LEFT, BTN_RIGHT};
use ewc::seat::{
    DataDeviceManagerRequest, DataDeviceRequest, DataOfferRequest, DataSourceRequest, Seat, SeatRequest,
};
use ewc::state::State;
use ewc::windows::ToplevelRequest;

const MODS: ModsState = ModsState { depressed: 0, latched: 0, locked: 0, group: 0 };
const LOGO: u32 = 6;
const ALT: u32 = 3;
const TIME: InputTimestamp = InputTimestamp(77);

fn a() -> ClientId {
    ClientId::first()
}

fn b() -> ClientId {
    ClientId::first().next()
}

fn handle(client: ClientId, key: u64) -> Handle {
    Handle { client, key }
}

fn resource(client: ClientId, key: u64, version: u32) -> Resource {
    Resource { handle: handle(client, key), version }
}

fn new_state() -> State {
    State::new(Seat::new(MODS))
}

fn ask(st: &mut State, client: ClientId, request: Request) -> Result<Vec<Action>, Error> {
    let mut actions = Vec::new();
    st.try_handle(client, request, &mut actions).unwrap().map(|()| actions)
}

fn ok(st: &mut State, client: ClientId, request: Request) -> Vec<Action> {
    ask(st, client, request).unwrap()
}

/// Brings a window of 100 by 50 to the screen.
fn show(st: &mut State, client: ClientId, key: u64) -> usize {
    let i = st.compositor.create_surface(client, 6);
    ok(st, client, Request::GetXdgSurface { surface: i, wl: handle(client, key) });
    ok(st, client, Request::XdgSurface(i, XdgSurfaceRequest::GetToplevel(resource(client, key + 1, 5))));
    ok(st, client, Request::Commit(i, None));
    ok(st, client, Request::XdgSurface(i, XdgSurfaceRequest::AckConfigure(1)));
    let attach = SurfaceRequest::Attach { buffer: Some(handle(client, key + 2)), x: 0, y: 0 };
    ok(st, client, Request::Surface(i, attach));
    let buffer = CommittedBuffer { id: BufferId(key), width: 100, height: 50 };
    ok(st, client, Request::Commit(i, Some(buffer)));
    i
}

fn info(keysym: u32, mods: ModsState) -> KeyInfo {
    KeyInfo { keysym, mods, logo_index: LOGO, alt_index: ALT }
}

fn event(st: &mut State, event: BackendEvent, info: KeyInfo) -> (BackendOutcome, Vec<Action>) {
    let mut actions = Vec::new();
    assert!(st.can_take_event(event));
    (st.poll_backend(event, info, &mut actions), actions)
}

fn point(st: &mut State, x: i32, y: i32) -> Vec<Action> {
    let motion = BackendEvent::PointerMotionAbsolute(PointerId(1), TIME, Fixed(x * 256), Fixed(y * 256));
    event(st, motion, info(0, MODS)).1
}

fn wl(st: &State, i: usize) -> Handle {
    st.compositor.surfaces.get(i).wl
}

fn place(st: &State, i: usize) -> (i32, i32) {
    let t = st.compositor.surfaces.get(i).get_xdg_surface().unwrap().get_toplevel().unwrap();
    (t.x, t.y)
}

fn with(bit: u32) -> ModsState {
    ModsState { depressed: 1 << bit, ..MODS }
}

#[test]
fn some_keys_are_for_the_compositor() {
    assert_eq!(key_action(KEY_ESCAPE, true), KeyAction::Quit);
    assert_eq!(key_action(KEY_ESCAPE, false), KeyAction::Forward);
    assert_eq!(key_action(KEY_SWITCH_VT_1, false), KeyAction::SwitchVt(1));
    assert_eq!(key_action(KEY_SWITCH_VT_1 + 11, true), KeyAction::SwitchVt(12));
    assert_eq!(key_action(KEY_SWITCH_VT_1 + 12, true), KeyAction::Forward);
}

#[test]
fn keys_go_to_the_window_on_top() {
    let mut st = new_state();
    let i = show(&mut st, a(), 10);
    ok(&mut st, a(), Request::Seat(SeatRequest::GetKeyboard(resource(a(), 20, 5))));
    ok(&mut st, b(), Request::Seat(SeatRequest::GetKeyboard(resource(b(), 21, 5))));
    let press = BackendEvent::KeyPressed(KeyboardId(1), TIME, 30);
    let keyboard = handle(a(), 20);
    let modifiers = |depressed| Action::KeyboardModifiers { keyboard, serial: 1, depressed, latched: 0, locked: 0, group: 0 };
    let surface = wl(&st, i);
    assert_eq!(
        event(&mut st, press, info(97, with(1))),
        (
            BackendOutcome::Handled,
            vec![
                Action::KeyboardEnter { keyboard, serial: 1, surface },
                modifiers(0),
                modifiers(2),
                Action::KeyboardKey { keyboard, serial: 1, time: 77, key: 30, state: PressState::Pressed },
            ]
        )
    );
    let release = BackendEvent::KeyReleased(KeyboardId(1), TIME, 30);
    assert_eq!(
        event(&mut st, release, info(97, with(1))).1,
        vec![Action::KeyboardKey { keyboard, serial: 1, time: 77, key: 30, state: PressState::Released }]
    );
}

#[test]
fn compositor_quits_and_switches() {
    let mut st = new_state();
    let press = BackendEvent::KeyPressed(KeyboardId(1), TIME, 1);
    assert_eq!(event(&mut st, press, info(KEY_ESCAPE, MODS)), (BackendOutcome::Handled, vec![]));
    assert_eq!(event(&mut st, press, info(KEY_SWITCH_VT_1 + 1, MODS)), (BackendOutcome::SwitchVt(2), vec![]));
    event(&mut st, press, info(0, with(LOGO)));
    assert!(st.seat.keyboard.get_mods(LOGO, ALT).logo);
    assert!(!st.seat.keyboard.get_mods(LOGO, ALT).alt);
    assert_eq!(event(&mut st, press, info(KEY_ESCAPE, with(LOGO))), (BackendOutcome::Quit, vec![]));
    assert_eq!(event(&mut st, BackendEvent::ShutDown, info(0, MODS)).0, BackendOutcome::ShutDown);
    assert_eq!(event(&mut st, BackendEvent::Frame, info(0, MODS)).0, BackendOutcome::DrawFrame);
    assert_eq!(event(&mut st, BackendEvent::NewKeyboard(KeyboardId(1)), info(0, MODS)).0, BackendOutcome::Handled);
}

#[test]
fn focus_leaves_one_surface_and_enters_the_next() {
    let mut st = new_state();
    let (i, j) = (show(&mut st, a(), 10), show(&mut st, b(), 10));
    ok(&mut st, a(), Request::Seat(SeatRequest::GetKeyboard(resource(a(), 20, 5))));
    ok(&mut st, b(), Request::Seat(SeatRequest::GetKeyboard(resource(b(), 20, 3))));
    let mut actions = Vec::new();
    let (first, second) = (wl(&st, i), wl(&st, j));
    st.seat.kbd_focus_surface(Some(first), &mut actions);
    actions.clear();
    st.seat.kbd_focus_surface(Some(first), &mut actions);
    assert_eq!(actions, vec![]);
    st.seat.kbd_focus_surface(Some(second), &mut actions);
    assert_eq!(actions[0], Action::KeyboardLeave { keyboard: handle(a(), 20), serial: 1, surface: first });
    assert_eq!(actions[1], Action::KeyboardEnter { keyboard: handle(b(), 20), serial: 1, surface: second });
    assert_eq!(actions.len(), 3);
}

#[test]
fn new_keyboard_learns_where_the_focus_is() {
    let mut st = new_state();
    let i = show(&mut st, a(), 10);
    let mut actions = Vec::new();
    let surface = wl(&st, i);
    st.seat.kbd_focus_surface(Some(surface), &mut actions);
    let keyboard = handle(a(), 20);
    let sent = ok(&mut st, a(), Request::Seat(SeatRequest::GetKeyboard(resource(a(), 20, 4))));
    assert_eq!(sent[0], Action::KeyboardKeymap { keyboard });
    assert_eq!(sent[1], Action::KeyboardRepeatInfo { keyboard, rate: 40, delay: 300 });
    assert_eq!(sent[2], Action::KeyboardEnter { keyboard, serial: 1, surface });
    assert_eq!(sent.len(), 4);
    let sent = ok(&mut st, b(), Request::Seat(SeatRequest::GetKeyboard(resource(b(), 20, 3))));
    assert_eq!(sent, vec![Action::KeyboardKeymap { keyboard: handle(b(), 20) }]);
    ok(&mut st, a(), Request::ReleaseKeyboard(keyboard));
    assert_eq!(st.seat.clients.keyboards, vec![resource(b(), 20, 3)]);
    assert_eq!(ask(&mut st, a(), Request::Seat(SeatRequest::GetTouch)), Err(Error::TouchNotSupported));
    assert_eq!(ask(&mut st, a(), Request::Seat(SeatRequest::Release)), Ok(vec![]));
}

#[test]
fn pointer_enters_moves_and_leaves() {
    let mut st = new_state();
    let i = show(&mut st, a(), 10);
    ok(&mut st, a(), Request::Seat(SeatRequest::GetPointer(resource(a(), 20, 5))));
    let pointer = handle(a(), 20);
    let surface = wl(&st, i);
    let px = |n: i32| Fixed(n * 256);
    assert_eq!(point(&mut st, 0, 0), vec![]);
    assert_eq!(
        point(&mut st, 30, 40),
        vec![
            Action::PointerEnter { pointer, serial: 1, surface, x: px(10), y: px(20) },
            Action::PointerFrame { pointer },
        ]
    );
    assert_eq!(
        point(&mut st, 31, 42),
        vec![
            Action::PointerMotion { pointer, time: 77, x: px(11), y: px(22) },
            Action::PointerFrame { pointer },
        ]
    );
    let axis = BackendEvent::PointerAxisVertial(PointerId(1), TIME, Fixed(5));
    assert_eq!(
        event(&mut st, axis, info(0, MODS)).1,
        vec![
            Action::PointerAxis { pointer, time: 77, value: Fixed(5) },
            Action::PointerFrame { pointer },
        ]
    );
    let still = BackendEvent::PointerAxisVertial(PointerId(1), TIME, Fixed(0));
    assert_eq!(event(&mut st, still, info(0, MODS)).1, vec![]);
    assert_eq!(
        point(&mut st, 500, 500),
        vec![Action::PointerLeave { pointer, serial: 1, surface }, Action::PointerFrame { pointer }]
    );
    assert_eq!(st.seat.pointer.get_focused_surface(), None);
}

#[test]
fn press_and_release_are_sent_once() {
    let surface = handle(a(), 0);
    let pointers = vec![resource(a(), 20, 1), resource(b(), 20, 1)];
    let mut p = Pointer::new();
    let mut actions = Vec::new();
    p.forward_pointer(surface, TIME, Fixed(0), Fixed(0), &pointers, &mut actions);
    actions.clear();
    p.update_button(5, TIME, false, true, &pointers, &mut actions);
    assert_eq!(actions, vec![]);
    p.update_button(5, TIME, true, true, &pointers, &mut actions);
    p.update_button(5, TIME, true, true, &pointers, &mut actions);
    p.update_button(5, TIME, false, true, &pointers, &mut actions);
    p.update_button(5, TIME, false, true, &pointers, &mut actions);
    let sent = |state| Action::PointerButton { pointer: handle(a(), 20), serial: 1, time: 77, button: 5, state };
    assert_eq!(actions, vec![sent(PressState::Pressed), sent(PressState::Released)]);
    assert_eq!(p.number_of_pressed_buttons(), 0);
    actions.clear();
    p.update_button(6, TIME, true, true, &pointers, &mut actions);
    p.update_button(7, TIME, true, false, &pointers, &mut actions);
    assert_eq!(p.number_of_pressed_buttons(), 2);
    assert_eq!(actions.len(), 1);
    p.update_button(6, TIME, false, false, &pointers, &mut actions);
    assert_eq!(p.pressed_buttons, vec![7]);
    assert_eq!(actions.len(), 1);
    p.update_button(7, TIME, true, false, &pointers, &mut actions);
    p.update_button(7, TIME, false, true, &pointers, &mut actions);
    assert_eq!(p.pressed_buttons, vec![]);
    assert_eq!(actions.len(), 1);
}

#[test]
fn window_follows_the_pointer_there_and_back() {
    let mut st = new_state();
    let i = show(&mut st, a(), 10);
    event(&mut st, BackendEvent::KeyPressed(KeyboardId(1), TIME, 56), info(0, with(ALT)));
    point(&mut st, 30, 40);
    event(&mut st, BackendEvent::PointerBtnPress(PointerId(1), TIME, BTN_LEFT), info(0, with(ALT)));
    assert!(matches!(st.seat.pointer.state, PtrState::Moving { .. }));
    let by = |x: i32, y: i32| BackendEvent::PointerMotionRelative(PointerId(1), TIME, Fixed(x * 256), Fixed(y * 256));
    event(&mut st, by(15, -7), info(0, with(ALT)));
    assert_eq!(place(&st, i), (35, 13));
    event(&mut st, by(-15, 7), info(0, with(ALT)));
    assert_eq!(place(&st, i), (20, 20));
    event(&mut st, BackendEvent::PointerBtnRelease(PointerId(1), TIME, BTN_LEFT), info(0, with(ALT)));
    assert!(matches!(st.seat.pointer.state, PtrState::Idle));
}

#[test]
fn window_is_resized_by_the_pointer() {
    let mut st = new_state();
    let i = show(&mut st, a(), 10);
    event(&mut st, BackendEvent::KeyPressed(KeyboardId(1), TIME, 56), info(0, with(ALT)));
    point(&mut st, 30, 40);
    event(&mut st, BackendEvent::PointerBtnPress(PointerId(1), TIME, BTN_RIGHT), info(0, with(ALT)));
    point(&mut st, 40, 45);
    let t = st.compositor.surfaces.get(i).get_xdg_surface().unwrap().get_toplevel().unwrap();
    let c = t.pending_configure.unwrap();
    assert_eq!((c.width, c.heinght), (110, 55));
    let mut actions = Vec::new();
    st.configure_windows(&mut actions);
    let toplevel = handle(a(), 11);
    assert_eq!(actions[0], Action::ToplevelConfigure { toplevel, width: 110, height: 55, activated: true });
    actions.clear();
    st.configure_windows(&mut actions);
    assert_eq!(actions, vec![]);
    point(&mut st, -500, -500);
    let t = st.compositor.surfaces.get(i).get_xdg_surface().unwrap().get_toplevel().unwrap();
    let c = t.pending_configure.unwrap();
    assert_eq!((c.width, c.heinght), (1, 1));
}

#[test]
fn opposite_corner_stays_in_place_over_several_sizes() {
    let mut st = new_state();
    let i = show(&mut st, a(), 10);
    let resizing = |st: &State| {
        st.compositor.surfaces.get(i).get_xdg_surface().unwrap().get_toplevel().unwrap().resizing
    };
    let corner = |st: &State, width: i32, height: i32| (place(st, i).0 + width, place(st, i).1 + height);
    assert_eq!(corner(&st, 100, 50), (120, 70));
    ok(&mut st, a(), Request::Toplevel(i, ToplevelRequest::Resize(ResizeEdge::TopLeft)));
    let by = |x: i32, y: i32| BackendEvent::PointerMotionRelative(PointerId(1), TIME, Fixed(x * 256), Fixed(y * 256));
    let mut serials = Vec::new();
    for _ in 0..2 {
        event(&mut st, by(-10, -5), info(0, MODS));
        st.configure_windows(&mut Vec::new());
        serials.push(resizing(&st).unwrap().3);
    }
    let commit = |st: &mut State, serial: u32, width: u32, height: u32| {
        ok(st, a(), Request::XdgSurface(i, XdgSurfaceRequest::AckConfigure(serial)));
        let attach = SurfaceRequest::Attach { buffer: Some(handle(a(), 12)), x: 0, y: 0 };
        ok(st, a(), Request::Surface(i, attach));
        ok(st, a(), Request::Commit(i, Some(CommittedBuffer { id: BufferId(10), width, height })));
    };
    commit(&mut st, serials[0], 110, 55);
    assert_eq!(place(&st, i), (10, 15));
    assert_eq!(corner(&st, 110, 55), (120, 70));
    assert!(resizing(&st).is_some());
    commit(&mut st, serials[1], 120, 60);
    assert_eq!(corner(&st, 120, 60), (120, 70));
    assert_eq!(resizing(&st), None);
}

#[test]
fn clients_ask_for_moves_and_resizes() {
    let mut st = new_state();
    let i = show(&mut st, a(), 10);
    ok(&mut st, a(), Request::Toplevel(i, ToplevelRequest::Move));
    assert!(matches!(st.seat.pointer.state, PtrState::Moving { toplevel_start_x: 20, toplevel_start_y: 20, .. }));
    ok(&mut st, a(), Request::Toplevel(i, ToplevelRequest::Resize(ResizeEdge::Left)));
    assert!(matches!(
        st.seat.pointer.state,
        PtrState::Resizing { edge: ResizeEdge::Left, toplevel_start_width: 100, toplevel_start_height: 50, .. }
    ));
    ok(&mut st, a(), Request::Toplevel(i, ToplevelRequest::Destroy));
    assert!(matches!(st.seat.pointer.state, PtrState::Idle));
}

#[test]
fn window_that_is_moved_comes_to_the_top() {
    let mut st = new_state();
    let (i, j) = (show(&mut st, a(), 10), show(&mut st, a(), 20));
    assert_eq!(st.focus_stack.inner(), &vec![i, j]);
    point(&mut st, 25, 25);
    event(&mut st, BackendEvent::PointerBtnPress(PointerId(1), TIME, BTN_LEFT), info(0, MODS));
    assert_eq!(st.focus_stack.inner(), &vec![i, j]);
    event(&mut st, BackendEvent::PointerBtnRelease(PointerId(1), TIME, BTN_LEFT), info(0, MODS));
    event(&mut st, BackendEvent::KeyPressed(KeyboardId(1), TIME, 56), info(0, with(ALT)));
    event(&mut st, BackendEvent::PointerBtnPress(PointerId(1), TIME, BTN_LEFT), info(0, MODS));
    assert_eq!(st.focus_stack.inner(), &vec![j, i]);
    assert_eq!(st.seat.keyboard.focused_surface(), Some(wl(&st, i)));
    let mut actions = Vec::new();
    st.focus_i(0, &mut actions);
    assert_eq!(st.focus_stack.inner(), &vec![i, j]);
    assert_eq!(st.seat.keyboard.focused_surface(), Some(wl(&st, j)));
}

#[test]
fn selection_is_offered_to_the_client_with_the_focus() {
    let mut st = new_state();
    let (i, j) = (show(&mut st, a(), 10), show(&mut st, b(), 10));
    let mut actions = Vec::new();
    let (first, second) = (wl(&st, i), wl(&st, j));
    st.seat.kbd_focus_surface(Some(first), &mut actions);
    let source = handle(a(), 30);
    ok(&mut st, a(), Request::DataDeviceManager(DataDeviceManagerRequest::CreateDataSource(source)));
    ok(&mut st, a(), Request::DataSource(source, DataSourceRequest::Offer("text/plain".to_string())));
    let device = |c| resource(c, 31, 3);
    let get = |c| Request::DataDeviceManager(DataDeviceManagerRequest::GetDataDevice(device(c)));
    assert_eq!(
        ok(&mut st, a(), get(a())),
        vec![Action::DataDeviceSelection { device: handle(a(), 31), offer: None }]
    );
    assert_eq!(ok(&mut st, b(), get(b())), vec![]);
    let select = |s| Request::DataDevice(handle(a(), 31), DataDeviceRequest::SetSelection(s));
    let sent = ok(&mut st, a(), select(Some(source)));
    assert_eq!(sent.len(), 3);
    assert_eq!(st.seat.keyboard.get_selection(), Some(source));
    st.seat.kbd_focus_surface(Some(second), &mut actions);
    let offer = st.seat.clients.data_offers.list.last().unwrap().offer;
    let n = actions.len();
    assert_eq!(
        actions[n - 3..],
        [
            Action::DataDeviceOffer { device: handle(b(), 31), offer },
            Action::DataOfferMime { offer, mime: "text/plain".to_string() },
            Action::DataDeviceSelection { device: handle(b(), 31), offer: Some(offer) },
        ]
    );
    assert_eq!(offer.client, b());
    assert_eq!(st.seat.data_offer_source(offer), Some(source));
    let receive = || Request::DataOffer(offer, DataOfferRequest::Receive("text/plain".to_string()), true);
    assert_eq!(
        ok(&mut st, b(), receive()),
        vec![Action::DataSourceSend { source, mime: "text/plain".to_string() }]
    );
    ok(&mut st, b(), Request::DataOffer(offer, DataOfferRequest::Destroy, true));
    assert_eq!(st.seat.data_offer_source(offer), None);
    st.seat.kbd_focus_surface(Some(first), &mut actions);
    assert_eq!(ask(&mut st, a(), select(Some(source))), Err(Error::UsedDataSource));
    let other = handle(a(), 32);
    ok(&mut st, a(), Request::DataDeviceManager(DataDeviceManagerRequest::CreateDataSource(other)));
    let sent = ok(&mut st, a(), select(Some(other)));
    assert_eq!(sent[0], Action::DataSourceCancelled { source });
    let sent = ok(&mut st, a(), select(None));
    assert_eq!(
        sent,
        vec![
            Action::DataSourceCancelled { source: other },
            Action::DataDeviceSelection { device: handle(a(), 31), offer: None },
        ]
    );
}

#[test]
fn surface_that_is_gone_has_no_focus() {
    let mut st = new_state();
    let i = show(&mut st, a(), 10);
    ok(&mut st, a(), Request::Seat(SeatRequest::GetKeyboard(resource(a(), 20, 4))));
    ok(&mut st, a(), Request::Seat(SeatRequest::GetPointer(resource(a(), 21, 4))));
    point(&mut st, 30, 40);
    let surface = wl(&st, i);
    let mut actions = Vec::new();
    st.seat.kbd_focus_surface(Some(surface), &mut actions);
    let sent = ok(&mut st, a(), Request::Toplevel(i, ToplevelRequest::Destroy));
    assert_eq!(
        sent,
        vec![
            Action::KeyboardLeave { keyboard: handle(a(), 20), serial: 1, surface },
            Action::PointerLeave { pointer: handle(a(), 21), serial: 1, surface },
        ]
    );
    assert_eq!(st.seat.keyboard.focused_surface(), None);
    assert_eq!(st.seat.pointer.get_focused_surface(), None);
}

#[test]
fn objects_are_taken_out_of_lists() {
    let mut list = vec![resource(a(), 1, 1), resource(b(), 1, 1), resource(a(), 2, 1)];
    remove_resource(&mut list, handle(a(), 1));
    assert_eq!(list, vec![resource(b(), 1, 1), resource(a(), 2, 1)]);
    remove_resources_of(&mut list, a());
    assert_eq!(list, vec![resource(b(), 1, 1)]);
}
