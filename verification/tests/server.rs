use ewc::backend::BufferId;
use ewc::client::{wl_display_cb, ClientId, DisplayRequest};
use ewc::dispatch::Request;
use ewc::eglgbm::{FormatTable, Fourcc};
use ewc::error::Error;
use ewc::globals::compositor::CommittedBuffer;
use ewc::globals::compositor_requests::SurfaceRequest;
use ewc::globals::ewc_debug::{Debugger, Interest};
use ewc::globals::xdg_shell::requests::XdgSurfaceRequest;
use ewc::globals::{on_bind, register_globals, GlobalsManager};
use ewc::protocol::{Action, GlobalInterface, Handle, Resource, ShmFormat};
use ewc::seat::keyboard::ModsState;
use ewc::seat::{DataDeviceManagerRequest, DataDeviceRequest, Seat, SeatRequest};
use ewc::state::State;

fn a() -> ClientId {
    ClientId::first()
}

fn b() -> ClientId {
    ClientId::first().next()
}

fn handle(client: ClientId, key: u64) -> Handle {
    Handle { client, key }
}

fn resource(client: ClientId, key: u64, version: u32) -> Resource {
    Resource { handle: handle(client, key), version }
}

fn new_state() -> State {
    State::new(Seat::new(ModsState { depressed: 0, latched: 0, locked: 0, group: 0 }))
}

fn ok(st: &mut State, client: ClientId, request: Request) -> Vec<Action> {
    let mut actions = Vec::new();
    assert_eq!(st.try_handle(client, request, &mut actions), Some(Ok(())));
    actions
}

fn show(st: &mut State, client: ClientId, key: u64) -> usize {
    let i = st.compositor.create_surface(client, 6);
    ok(st, client, Request::GetXdgSurface { surface: i, wl: handle(client, key) });
    ok(st, client, Request::XdgSurface(i, XdgSurfaceRequest::GetToplevel(resource(client, key + 1, 5))));
    ok(st, client, Request::Commit(i, None));
    ok(st, client, Request::XdgSurface(i, XdgSurfaceRequest::AckConfigure(1)));
    let attach = SurfaceRequest::Attach { buffer: Some(handle(client, key + 2)), x: 0, y: 0 };
    ok(st, client, Request::Surface(i, attach));
    let buffer = CommittedBuffer { id: BufferId(key), width: 100, height: 50 };
    ok(st, client, Request::Commit(i, Some(buffer)));
    i
}

#[test]
fn registry_tells_what_can_be_bound() {
    let mut globals = register_globals(true);
    let mut actions = Vec::new();
    let registry = handle(a(), 2);
    wl_display_cb(&mut globals, DisplayRequest::GetRegistry(registry), &mut actions);
    assert_eq!(actions.len(), 12);
    assert_eq!(
        actions[0],
        Action::RegistryGlobal { registry, name: 1, interface: GlobalInterface::WlCompositor, version: 6 }
    );
    for action in &actions {
        match action {
            Action::RegistryGlobal { name, interface, version, .. } => {
                let text = interface.name().to_string();
                assert_eq!(globals.wl_registry_cb(*name, &text, *version), Ok(*interface));
                assert_eq!(globals.wl_registry_cb(*name, &text, 1), Ok(*interface));
            }
            _ => unreachable!(),
        }
    }
    let bind = |name, text: &str, version| globals.wl_registry_cb(name, &text.to_string(), version);
    assert_eq!(bind(99, "wl_compositor", 1), Err(Error::BindInvalidName));
    assert_eq!(bind(1, "wl_shm", 1), Err(Error::BindInvalidInterface));
    assert_eq!(bind(1, "wl_compositor", 7), Err(Error::BindInvalidVersion));
}

#[test]
fn new_globals_are_told_to_old_registries() {
    let mut globals = GlobalsManager::new();
    let mut actions = Vec::new();
    globals.add_registry(handle(a(), 1), &mut actions);
    globals.add_registry(handle(b(), 1), &mut actions);
    assert_eq!(actions, vec![]);
    globals.remove_client(a());
    globals.add_global(GlobalInterface::WlShm, 1, 1);
    assert!(!format!("{:?}", globals).contains("registries: []"));
    globals.remove_client(b());
    assert!(format!("{:?}", globals).contains("registries: []"));
}

#[test]
fn sync_is_answered_at_once() {
    let mut globals = GlobalsManager::new();
    let mut actions = Vec::new();
    let callback = handle(a(), 3);
    wl_display_cb(&mut globals, DisplayRequest::Sync(callback), &mut actions);
    assert_eq!(actions, vec![Action::CallbackDone { callback, data: 0 }]);
}

#[test]
fn new_objects_are_told_what_they_are_for() {
    let mut table = FormatTable::new();
    table.add_modifier(Fourcc(5), 0x1_0000_0002);
    let bound = |interface, version| {
        let mut actions = Vec::new();
        on_bind(interface, resource(a(), 9, version), &table, &mut actions);
        actions
    };
    let h = handle(a(), 9);
    assert_eq!(bound(GlobalInterface::WlSeat, 5), vec![Action::SeatCapabilities { seat: h }]);
    assert_eq!(
        bound(GlobalInterface::WlShm, 1),
        vec![
            Action::ShmFormat { shm: h, format: ShmFormat::Argb8888 },
            Action::ShmFormat { shm: h, format: ShmFormat::Xrgb8888 },
        ]
    );
    assert_eq!(
        bound(GlobalInterface::WlOutput, 1),
        vec![
            Action::OutputGeometry { output: h },
            Action::OutputMode { output: h, width: 1920, height: 1080, refresh: 0 },
        ]
    );
    assert_eq!(bound(GlobalInterface::WlOutput, 2).last(), Some(&Action::OutputDone { output: h }));
    assert_eq!(
        bound(GlobalInterface::ZwpLinuxDmabufV1, 3),
        vec![
            Action::DmabufFormat { dmabuf: h, format: 5 },
            Action::DmabufModifier { dmabuf: h, format: 5, modifier_hi: 1, modifier_lo: 2 },
        ]
    );
    assert_eq!(bound(GlobalInterface::ZwpLinuxDmabufV1, 1), vec![Action::DmabufFormat { dmabuf: h, format: 5 }]);
    assert_eq!(bound(GlobalInterface::WlCompositor, 6), vec![]);
}

#[test]
fn window_on_top_is_active() {
    let mut st = new_state();
    let i = show(&mut st, a(), 10);
    let mut actions = Vec::new();
    st.configure_windows(&mut actions);
    assert_eq!(
        actions,
        vec![
            Action::ToplevelConfigure { toplevel: handle(a(), 11), width: 0, height: 0, activated: true },
            Action::XdgSurfaceConfigure { xdg_surface: handle(a(), 10), serial: 2 },
        ]
    );
    actions.clear();
    st.configure_windows(&mut actions);
    assert_eq!(actions, vec![]);
    show(&mut st, b(), 20);
    st.configure_windows(&mut actions);
    let told = |toplevel, activated| Action::ToplevelConfigure { toplevel, width: 0, height: 0, activated };
    assert!(actions.contains(&told(handle(a(), 11), false)));
    assert!(actions.contains(&told(handle(b(), 21), true)));
    assert_eq!(actions.len(), 4);
    assert!(st.compositor.surfaces.get(i).mapped);
}

#[test]
fn objects_of_a_client_that_is_gone_are_forgotten() {
    let mut st = new_state();
    let (i, j) = (show(&mut st, a(), 10), show(&mut st, b(), 20));
    for client in [a(), b()] {
        ok(&mut st, client, Request::Seat(SeatRequest::GetKeyboard(resource(client, 30, 5))));
        ok(&mut st, client, Request::Seat(SeatRequest::GetPointer(resource(client, 31, 5))));
        let device = DataDeviceManagerRequest::GetDataDevice(resource(client, 32, 3));
        ok(&mut st, client, Request::DataDeviceManager(device));
    }
    let source = handle(b(), 33);
    ok(&mut st, b(), Request::DataDeviceManager(DataDeviceManagerRequest::CreateDataSource(source)));
    ok(&mut st, b(), Request::DataDevice(handle(b(), 32), DataDeviceRequest::SetSelection(Some(source))));
    let mut actions = Vec::new();
    let surface = st.compositor.surfaces.get(j).wl;
    st.seat.kbd_focus_surface(Some(surface), &mut actions);
    actions.clear();
    st.destroy_client(b(), &mut actions);
    assert!(actions.contains(&Action::UnlockBuffer { buffer: BufferId(20) }));
    assert!(!actions.contains(&Action::UnlockBuffer { buffer: BufferId(10) }));
    assert_eq!(st.focus_stack.inner(), &vec![i]);
    assert_eq!(st.seat.keyboard.get_selection(), None);
    assert_eq!(st.seat.clients.keyboards, vec![resource(a(), 30, 5)]);
    assert_eq!(st.seat.clients.pointers, vec![resource(a(), 31, 5)]);
    assert_eq!(st.seat.clients.data_devices, vec![resource(a(), 32, 3)]);
    assert!(st.compositor.surfaces.get(i).mapped);
}

#[test]
fn debuggers_hear_what_they_are_interested_in() {
    let all = Interest { frame_stat: true, messages: true };
    let frames = Interest { messages: false, ..all };
    let none = Interest { frame_stat: false, ..frames };
    assert_eq!(none.or(frames), frames);
    assert_eq!(frames.or(Interest { frame_stat: false, messages: true }), all);
    let mut d = Debugger::new();
    let mut actions = Vec::new();
    d.frame(5, &mut actions);
    assert_eq!(actions, vec![]);
    d.get_debugger(handle(a(), 1), frames);
    d.get_debugger(handle(b(), 1), all);
    assert_eq!(d.accum_interest(), all);
    d.frame(5, &mut actions);
    assert_eq!(
        actions,
        vec![
            Action::DebugFrameStat { debugger: handle(a(), 1), nanos: 5 },
            Action::DebugFrameStat { debugger: handle(b(), 1), nanos: 5 },
        ]
    );
    let message = "hello".to_string();
    assert_eq!(
        d.message(&message),
        vec![Action::DebugMessage { debugger: handle(b(), 1), message: message.clone() }]
    );
    d.remove_client(b());
    assert_eq!(d.accum_interest(), frames);
    assert_eq!(d.message(&message), vec![]);
}
