//! Global objects and what they do.
use vstd::prelude::*;

use crate::client::ClientId;
use crate::error::Error;
use crate::eglgbm::gbm::{modifier_hi, modifier_lo, split_modifier};
use crate::eglgbm::{entry_views, FormatMods, FormatModsV, FormatTable, Fourcc};
use crate::globals::shm::{send_shm_formats, shm_format_events};
use crate::protocol::{Action, GlobalInterface, Handle, Resource};

pub mod compositor;
pub mod compositor_requests;
pub mod cursor_shape;
pub mod ewc_debug;
pub mod linux_dmabuf;
pub mod shm;
pub mod shm_gl;
pub mod single_pixel_buffer;
pub mod subsurfaces;
pub mod surfaces;
pub mod xdg_shell;

verus! {

impl GlobalInterface {
    /// The name of the interface.
    pub open spec fn wire_name(self) -> Seq<char> {
        match self {
            GlobalInterface::WlCompositor => "wl_compositor"@,
            GlobalInterface::WlSubcompositor => "wl_subcompositor"@,
            GlobalInterface::XdgWmBase => "xdg_wm_base"@,
            GlobalInterface::WpViewporter => "wp_viewporter"@,
            GlobalInterface::WlSeat => "wl_seat"@,
            GlobalInterface::WlDataDeviceManager => "wl_data_device_manager"@,
            GlobalInterface::WlShm => "wl_shm"@,
            GlobalInterface::WlOutput => "wl_output"@,
            GlobalInterface::EwcDebugV1 => "ewc_debug_v1"@,
            GlobalInterface::WpSinglePixelBufferManagerV1 => "wp_single_pixel_buffer_manager_v1"@,
            GlobalInterface::WpCursorShapeManagerV1 => "wp_cursor_shape_manager_v1"@,
            GlobalInterface::ZwpLinuxDmabufV1 => "zwp_linux_dmabuf_v1"@,
        }
    }

    /// The name of the interface.
    pub fn name(self) -> (r: &'static str)
        ensures
            r@ == self.wire_name(),
    {
        match self {
            GlobalInterface::WlCompositor => "wl_compositor",
            GlobalInterface::WlSubcompositor => "wl_subcompositor",
            GlobalInterface::XdgWmBase => "xdg_wm_base",
            GlobalInterface::WpViewporter => "wp_viewporter",
            GlobalInterface::WlSeat => "wl_seat",
            GlobalInterface::WlDataDeviceManager => "wl_data_device_manager",
            GlobalInterface::WlShm => "wl_shm",
            GlobalInterface::WlOutput => "wl_output",
            GlobalInterface::EwcDebugV1 => "ewc_debug_v1",
            GlobalInterface::WpSinglePixelBufferManagerV1 => "wp_single_pixel_buffer_manager_v1",
            GlobalInterface::WpCursorShapeManagerV1 => "wp_cursor_shape_manager_v1",
            GlobalInterface::ZwpLinuxDmabufV1 => "zwp_linux_dmabuf_v1",
        }
    }
}

/// Something that clients can bind.
#[derive(Debug, Clone, Copy, PartialEq, Eq, Structural)]
pub struct Global {
    pub name: u32,
    pub version: u32,
    pub interface: GlobalInterface,
}

impl Global {
    /// What comes of binding the global as an interface with a version.
    pub open spec fn bound(self, interface: Seq<char>, version: u32) -> Result<(), Error> {
        if self.interface.wire_name() != interface {
            Err(Error::BindInvalidInterface)
        } else if self.version < version {
            Err(Error::BindInvalidVersion)
        } else {
            Ok(())
        }
    }

    /// Checks that a client binds the global as what it is.
    pub fn bind(&self, interface: &String, version: u32) -> (r: Result<(), Error>)
        ensures
            r == self.bound(interface@, version),
    {
        let own: String = self.interface.name().to_owned();
        if own != *interface {
            return Err(Error::BindInvalidInterface);
        }
        if self.version < version {
            return Err(Error::BindInvalidVersion);
        }
        Ok(())
    }
}

/// The globals, and the registries that clients see them in.
#[derive(Debug)]
pub struct GlobalsManager {
    globals: Vec<Global>,
    registries: Vec<Handle>,
    last_name: u32,
}

/// What a [`GlobalsManager`] says.
#[verifier::ext_equal]
pub struct GlobalsV {
    pub globals: Seq<Global>,
    pub registries: Seq<Handle>,
    pub last_name: u32,
}

impl View for GlobalsManager {
    type V = GlobalsV;

    closed spec fn view(&self) -> GlobalsV {
        GlobalsV { globals: self.globals@, registries: self.registries@, last_name: self.last_name }
    }
}

/// What holds of the globals between calls: names go up.
pub open spec fn globals_wf(g: GlobalsV) -> bool {
    &&& forall|i: int| 0 <= i < g.globals.len() ==> 1 <= (#[trigger] g.globals[i]).name <= g.last_name
    &&& forall|i: int, j: int|
        0 <= i < j < g.globals.len() ==> (#[trigger] g.globals[i]).name < (#[trigger] g.globals[j]).name
}

/// The events that tell a registry all globals.
pub open spec fn global_events(registry: Handle, globals: Seq<Global>) -> Seq<Action> {
    globals.map_values(
        |g: Global|
            Action::RegistryGlobal { registry, name: g.name, interface: g.interface, version: g.version },
    )
}

/// The registries of all clients but one.
pub open spec fn registries_without(registries: Seq<Handle>, client: ClientId) -> Seq<Handle>
    decreases registries.len(),
{
    if registries.len() == 0 {
        Seq::empty()
    } else {
        let before = registries_without(registries.drop_last(), client);
        if registries.last().client == client {
            before
        } else {
            before.push(registries.last())
        }
    }
}

impl GlobalsV {
    /// The globals with one more.
    pub open spec fn added(self, interface: GlobalInterface, version: u32) -> GlobalsV {
        let name = (self.last_name + 1) as u32;
        GlobalsV { globals: self.globals.push(Global { name, version, interface }), last_name: name, ..self }
    }

    /// Whether a name is the name of global `i`.
    pub open spec fn named(self, i: int, name: u32) -> bool {
        0 <= i < self.globals.len() && self.globals[i].name == name
    }
}

impl GlobalsManager {
    /// No globals.
    pub fn new() -> (r: Self)
        ensures
            r@ == (GlobalsV { globals: Seq::empty(), registries: Seq::empty(), last_name: 0 }),
            globals_wf(r@),
    {
        Self { globals: Vec::new(), registries: Vec::new(), last_name: 0 }
    }

    /// Adds a global of an interface whose greatest version is `max_version`.
    pub fn add_global(&mut self, interface: GlobalInterface, version: u32, max_version: u32)
        requires
            globals_wf(old(self)@),
            1 <= version <= max_version,
            old(self)@.last_name < u32::MAX,
        ensures
            final(self)@ == old(self)@.added(interface, version),
            globals_wf(final(self)@),
    {
        let name: u32 = self.last_name + 1;
        self.globals.push(Global { name, version, interface });
        self.last_name = name;
    }

    /// Adds a registry and tells it all globals.
    pub fn add_registry(&mut self, registry: Handle, actions: &mut Vec<Action>)
        requires
            globals_wf(old(self)@),
        ensures
            final(self)@ == (GlobalsV { registries: old(self)@.registries.push(registry), ..old(self)@ }),
            final(actions)@ == old(actions)@ + global_events(registry, old(self)@.globals),
            globals_wf(final(self)@),
    {
        let ghost a0 = actions@;
        let ghost events = global_events(registry, self@.globals);
        let mut i: usize = 0;
        assert(a0 + events.take(0) =~= a0);
        while i < self.globals.len()
            invariant
                i <= self.globals.len(),
                self@ == old(self)@,
                events == global_events(registry, self@.globals),
                actions@ == a0 + events.take(i as int),
            decreases self.globals.len() - i,
        {
            let g = self.globals[i];
            actions.push(Action::RegistryGlobal { registry, name: g.name, interface: g.interface, version: g.version });
            assert(actions@ =~= a0 + events.take(i + 1));
            i = i + 1;
        }
        assert(events.take(i as int) =~= events);
        self.registries.push(registry);
    }

    /// Forgets the registries of a client.
    pub fn remove_client(&mut self, client_id: ClientId)
        requires
            globals_wf(old(self)@),
        ensures
            final(self)@ == (GlobalsV {
                registries: registries_without(old(self)@.registries, client_id),
                ..old(self)@
            }),
            globals_wf(final(self)@),
    {
        let ghost all = self@.registries;
        let mut kept: Vec<Handle> = Vec::new();
        let mut i: usize = 0;
        assert(all.take(0) =~= Seq::<Handle>::empty());
        while i < self.registries.len()
            invariant
                i <= self.registries.len(),
                self@ == old(self)@,
                all == self@.registries,
                kept@ == registries_without(all.take(i as int), client_id),
            decreases self.registries.len() - i,
        {
            assert(all.take(i + 1).drop_last() =~= all.take(i as int));
            let r = self.registries[i];
            if r.client != client_id {
                kept.push(r);
            }
            i = i + 1;
        }
        assert(all.take(i as int) =~= all);
        self.registries = kept;
    }

    /// Handles the request to bind a global. Gives what is bound.
    pub fn wl_registry_cb(&self, name: u32, interface: &String, version: u32) -> (r: Result<GlobalInterface, Error>)
        requires
            globals_wf(self@),
        ensures
            (forall|i: int| !#[trigger] self@.named(i, name)) ==> r == Err::<GlobalInterface, Error>(
                Error::BindInvalidName,
            ),
            forall|i: int| #[trigger]
                self@.named(i, name) ==> r == (match self@.globals[i].bound(interface@, version) {
                    Ok(_) => Ok::<GlobalInterface, Error>(self@.globals[i].interface),
                    Err(e) => Err::<GlobalInterface, Error>(e),
                }),
    {
        let mut i: usize = 0;
        while i < self.globals.len()
            invariant
                i <= self.globals.len(),
                globals_wf(self@),
                forall|j: int| 0 <= j < i ==> (#[trigger] self@.globals[j]).name != name,
            decreases self.globals.len() - i,
        {
            if self.globals[i].name == name {
                assert(self@.named(i as int, name));
                assert forall|j: int| #[trigger] self@.named(j, name) implies j == i by {
                    assert(self@.globals[j].name == self@.globals[i as int].name);
                }
                return match self.globals[i].bind(interface, version) {
                    Ok(_) => Ok(self.globals[i].interface),
                    Err(e) => Err(e),
                };
            }
            i = i + 1;
        }
        Err(Error::BindInvalidName)
    }
}

/// The globals of the compositor, each with its version, in the order of their names.
pub open spec fn compositor_globals() -> Seq<(GlobalInterface, u32)> {
    seq![
        (GlobalInterface::WlCompositor, 6),
        (GlobalInterface::WlSubcompositor, 1),
        (GlobalInterface::XdgWmBase, 5),
        (GlobalInterface::WpViewporter, 1),
        (GlobalInterface::WlSeat, 5),
        (GlobalInterface::WlDataDeviceManager, 3),
        (GlobalInterface::WlShm, 1),
        (GlobalInterface::WlOutput, 2),
        (GlobalInterface::EwcDebugV1, 1),
        (GlobalInterface::WpSinglePixelBufferManagerV1, 1),
        (GlobalInterface::WpCursorShapeManagerV1, 1),
    ]
}

/// The globals that are named after their place in a list.
pub open spec fn globals_named(list: Seq<(GlobalInterface, u32)>) -> Seq<Global> {
    Seq::new(list.len(), |i: int| Global { name: (i + 1) as u32, version: list[i].1, interface: list[i].0 })
}

/// The globals of the compositor. Buffers in graphics memory can be used if the renderer knows their
/// formats.
pub fn register_globals(dmabuf: bool) -> (r: GlobalsManager)
    ensures
        globals_wf(r@),
        r@.registries == Seq::<Handle>::empty(),
        r@.globals == globals_named(
            compositor_globals() + if dmabuf {
                seq![(GlobalInterface::ZwpLinuxDmabufV1, 3u32)]
            } else {
                Seq::empty()
            },
        ),
{
    let mut g = GlobalsManager::new();
    g.add_global(GlobalInterface::WlCompositor, 6, 6);
    g.add_global(GlobalInterface::WlSubcompositor, 1, 1);
    g.add_global(GlobalInterface::XdgWmBase, 5, 5);
    g.add_global(GlobalInterface::WpViewporter, 1, 1);
    g.add_global(GlobalInterface::WlSeat, 5, 5);
    g.add_global(GlobalInterface::WlDataDeviceManager, 3, 3);
    g.add_global(GlobalInterface::WlShm, 1, 1);
    g.add_global(GlobalInterface::WlOutput, 2, 2);
    g.add_global(GlobalInterface::EwcDebugV1, 1, 1);
    g.add_global(GlobalInterface::WpSinglePixelBufferManagerV1, 1, 1);
    g.add_global(GlobalInterface::WpCursorShapeManagerV1, 1, 1);
    if dmabuf {
        g.add_global(GlobalInterface::ZwpLinuxDmabufV1, 3, 3);
    }
    assert(g@.globals =~= globals_named(
        compositor_globals() + if dmabuf {
            seq![(GlobalInterface::ZwpLinuxDmabufV1, 3u32)]
        } else {
            Seq::empty()
        },
    ));
    g
}

/// The events that tell an object the modifiers of a format.
pub open spec fn modifier_events(dmabuf: Handle, fourcc: Fourcc, mods: Seq<u64>) -> Seq<Action> {
    mods.map_values(
        |m: u64|
            Action::DmabufModifier {
                dmabuf,
                format: fourcc.0,
                modifier_hi: modifier_hi(m),
                modifier_lo: modifier_lo(m),
            },
    )
}

/// The events that tell an object of a version the formats for buffers in graphics memory.
pub open spec fn dmabuf_events(dmabuf: Resource, table: Seq<FormatModsV>) -> Seq<Action>
    decreases table.len(),
{
    if table.len() == 0 || dmabuf.version >= 4 {
        Seq::empty()
    } else {
        let before = dmabuf_events(dmabuf, table.drop_last());
        let format = seq![Action::DmabufFormat { dmabuf: dmabuf.handle, format: table.last().fourcc.0 }];
        before + format + if dmabuf.version == 3 {
            modifier_events(dmabuf.handle, table.last().fourcc, table.last().mods)
        } else {
            Seq::empty()
        }
    }
}

/// The events that tell an object of a version about the screen.
pub open spec fn output_events(output: Resource) -> Seq<Action> {
    let o = output.handle;
    let dummy = seq![
        Action::OutputGeometry { output: o },
        Action::OutputMode { output: o, width: 1920, height: 1080, refresh: 0 },
    ];
    if output.version >= 2 {
        dummy.push(Action::OutputDone { output: o })
    } else {
        dummy
    }
}

/// What a new object of a global is told.
pub open spec fn bind_events(interface: GlobalInterface, object: Resource, table: Seq<FormatModsV>) -> Seq<Action> {
    match interface {
        GlobalInterface::WlSeat => seq![Action::SeatCapabilities { seat: object.handle }],
        GlobalInterface::WlShm => shm_format_events(object.handle),
        GlobalInterface::WlOutput => output_events(object),
        GlobalInterface::ZwpLinuxDmabufV1 => dmabuf_events(object, table),
        _ => Seq::empty(),
    }
}

fn send_dmabuf_formats(dmabuf: Resource, table: &FormatTable, actions: &mut Vec<Action>)
    ensures
        final(actions)@ == old(actions)@ + dmabuf_events(dmabuf, table@),
{
    let ghost a0 = actions@;
    if dmabuf.version >= 4 {
        assert(actions@ =~= a0 + dmabuf_events(dmabuf, table@));
        return ;
    }
    let entries: &Vec<FormatMods> = table.entries();
    let ghost t = table@;
    let mut i: usize = 0;
    assert(t.take(0) =~= Seq::<FormatModsV>::empty());
    assert(a0 + dmabuf_events(dmabuf, t.take(0)) =~= a0);
    while i < entries.len()
        invariant
            i <= entries.len(),
            entry_views(entries@) == t,
            dmabuf.version < 4,
            actions@ == a0 + dmabuf_events(dmabuf, t.take(i as int)),
        decreases entries.len() - i,
    {
        let fourcc = entries[i].fourcc;
        assert(t[i as int] == entries@[i as int]@);
        assert(t.take(i + 1).drop_last() =~= t.take(i as int));
        let ghost before = dmabuf_events(dmabuf, t.take(i as int));
        actions.push(Action::DmabufFormat { dmabuf: dmabuf.handle, format: fourcc.0 });
        let ghost a1 = actions@;
        assert(a1 =~= a0 + (before + seq![Action::DmabufFormat { dmabuf: dmabuf.handle, format: fourcc.0 }]));
        if dmabuf.version == 3 {
            let mods = &entries[i].mods;
            let ghost events = modifier_events(dmabuf.handle, fourcc, mods@);
            let mut j: usize = 0;
            assert(a1 + events.take(0) =~= a1);
            while j < mods.len()
                invariant
                    j <= mods.len(),
                    events == modifier_events(dmabuf.handle, fourcc, mods@),
                    actions@ == a1 + events.take(j as int),
                decreases mods.len() - j,
            {
                let (hi, lo) = split_modifier(mods[j]);
                actions.push(
                    Action::DmabufModifier {
                        dmabuf: dmabuf.handle,
                        format: fourcc.0,
                        modifier_hi: hi,
                        modifier_lo: lo,
                    },
                );
                assert(actions@ =~= a1 + events.take(j + 1));
                j = j + 1;
            }
            assert(events.take(j as int) =~= events);
        }
        assert(actions@ =~= a0 + dmabuf_events(dmabuf, t.take(i + 1)));
        i = i + 1;
    }
    assert(t.take(i as int) =~= t);
}

/// Tells a new object of a global what it has to know.
pub fn on_bind(interface: GlobalInterface, object: Resource, table: &FormatTable, actions: &mut Vec<Action>)
    ensures
        final(actions)@ == old(actions)@ + bind_events(interface, object, table@),
{
    let ghost a0 = actions@;
    match interface {
        GlobalInterface::WlSeat => {
            actions.push(Action::SeatCapabilities { seat: object.handle });
        },
        GlobalInterface::WlShm => {
            send_shm_formats(object.handle, actions);
        },
        GlobalInterface::WlOutput => {
            actions.push(Action::OutputGeometry { output: object.handle });
            actions.push(Action::OutputMode { output: object.handle, width: 1920, height: 1080, refresh: 0 });
            if object.version >= 2 {
                actions.push(Action::OutputDone { output: object.handle });
            }
        },
        GlobalInterface::ZwpLinuxDmabufV1 => {
            send_dmabuf_formats(object, table, actions);
        },
        _ => {},
    }
    assert(actions@ =~= a0 + bind_events(interface, object, table@));
}

/// Every global that a registry was told of can be bound by its name, interface and version.
pub proof fn law_told_globals_can_be_bound(g: GlobalsV, registry: Handle, i: int)
    requires
        globals_wf(g),
        0 <= i < g.globals.len(),
    ensures
        global_events(registry, g.globals)[i] == (Action::RegistryGlobal {
            registry,
            name: g.globals[i].name,
            interface: g.globals[i].interface,
            version: g.globals[i].version,
        }),
        g.named(i, g.globals[i].name),
        g.globals[i].bound(g.globals[i].interface.wire_name(), g.globals[i].version) == Ok::<(), Error>(()),
        forall|j: int| #[trigger] g.named(j, g.globals[i].name) ==> j == i,
{
    assert forall|j: int| #[trigger] g.named(j, g.globals[i].name) implies j == i by {
        assert(g.globals[j].name == g.globals[i].name);
    }
}

} // verus!
