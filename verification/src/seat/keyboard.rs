//! The keyboard of the seat and the selection that follows its focus.
use vstd::prelude::*;

use crate::backend::InputTimestamp;
use crate::client::ClientId;
use crate::protocol::{Action, Handle, PressState, Resource};
use crate::seat::events::DeviceEvent;

verus! {

/// The modifiers and the layout that are in effect.
#[derive(Debug, Clone, Copy, PartialEq, Eq, Structural)]
pub struct ModsState {
    pub depressed: u32,
    pub latched: u32,
    pub locked: u32,
    pub group: u32,
}

impl ModsState {
    /// The event that tells a keyboard.
    pub open spec fn event(self, serial: u32, keyboard: Handle) -> Action {
        Action::KeyboardModifiers {
            keyboard,
            serial,
            depressed: self.depressed,
            latched: self.latched,
            locked: self.locked,
            group: self.group,
        }
    }

    /// Tells a keyboard.
    pub fn send(&self, serial: u32, keyboard: Handle, actions: &mut Vec<Action>)
        ensures
            final(actions)@ == old(actions)@.push(self.event(serial, keyboard)),
    {
        actions.push(
            Action::KeyboardModifiers {
                keyboard,
                serial,
                depressed: self.depressed,
                latched: self.latched,
                locked: self.locked,
                group: self.group,
            },
        );
    }
}

/// The modifiers that the compositor itself listens to.
#[derive(Debug, Clone, Copy, PartialEq, Eq, Structural)]
pub struct ModsMask {
    pub logo: bool,
    pub alt: bool,
}

/// Data that a client offers to others.
#[derive(Debug)]
pub struct DataSource {
    pub wl: Handle,
    pub mime: Vec<String>,
}

/// What a [`DataSource`] says.
#[verifier::ext_equal]
pub struct DataSourceV {
    pub wl: Handle,
    pub mime: Seq<String>,
}

impl View for DataSource {
    type V = DataSourceV;

    open spec fn view(&self) -> DataSourceV {
        DataSourceV { wl: self.wl, mime: self.mime@ }
    }
}

/// An offer of data to a client, and where the data comes from.
#[derive(Debug, Clone, Copy, PartialEq, Eq, Structural)]
pub struct DataOffer {
    pub offer: Handle,
    pub source: Handle,
}

/// All offers of data. Their keys are given out in order.
#[derive(Debug)]
pub struct DataOffers {
    pub list: Vec<DataOffer>,
    pub next_key: u64,
}

/// What [`DataOffers`] say.
#[verifier::ext_equal]
pub struct DataOffersV {
    pub list: Seq<DataOffer>,
    pub next_key: u64,
}

impl View for DataOffers {
    type V = DataOffersV;

    open spec fn view(&self) -> DataOffersV {
        DataOffersV { list: self.list@, next_key: self.next_key }
    }
}

impl DataOffersV {
    /// The offers after one more was made to `client`.
    pub open spec fn with_new(self, client: ClientId, source: Handle) -> DataOffersV {
        DataOffersV {
            list: self.list.push(DataOffer { offer: Handle { client, key: self.next_key }, source }),
            next_key: self.next_key.wrapping_add(1),
        }
    }
}

/// The events that name the kinds of data of an offer.
pub open spec fn mime_events(offer: Handle, mime: Seq<String>) -> Seq<Action> {
    mime.map_values(|m: String| Action::DataOfferMime { offer, mime: m })
}

impl DataSource {
    /// Offers the data to a client.
    pub fn new_data_offer(&self, device: Handle, offers: &mut DataOffers, actions: &mut Vec<Action>) -> (r: Handle)
        ensures
            r == (Handle { client: device.client, key: old(offers).next_key }),
            final(offers)@ == old(offers)@.with_new(device.client, self.wl),
            final(actions)@ == old(actions)@ + offer_events(self@, device, r),
    {
        let ghost before = actions@;
        let offer = Handle { client: device.client, key: offers.next_key };
        offers.next_key = offers.next_key.wrapping_add(1);
        offers.list.push(DataOffer { offer, source: self.wl });
        actions.push(Action::DataDeviceOffer { device, offer });
        let mut i: usize = 0;
        assert(actions@ =~= before + (seq![Action::DataDeviceOffer { device, offer }] + mime_events(
            offer,
            self.mime@.take(0),
        )));
        while i < self.mime.len()
            invariant
                i <= self.mime.len(),
                actions@ == before + (seq![Action::DataDeviceOffer { device, offer }] + mime_events(
                    offer,
                    self.mime@.take(i as int),
                )),
            decreases self.mime.len() - i,
        {
            let m = self.mime[i].clone();
            actions.push(Action::DataOfferMime { offer, mime: m });
            i = i + 1;
            assert(actions@ =~= before + (seq![Action::DataDeviceOffer { device, offer }] + mime_events(
                offer,
                self.mime@.take(i as int),
            )));
        }
        assert(self.mime@.take(i as int) =~= self.mime@);
        offer
    }
}

/// The events that make an offer to a data device.
pub open spec fn offer_events(source: DataSourceV, device: Handle, offer: Handle) -> Seq<Action> {
    seq![Action::DataDeviceOffer { device, offer }] + mime_events(offer, source.mime)
}

/// What a data device is told of the selection.
pub open spec fn selection_events(selection: Option<DataSourceV>, device: Handle, offers: DataOffersV) -> Seq<Action> {
    match selection {
        None => seq![Action::DataDeviceSelection { device, offer: None }],
        Some(source) => {
            let offer = Handle { client: device.client, key: offers.next_key };
            offer_events(source, device, offer).push(Action::DataDeviceSelection { device, offer: Some(offer) })
        },
    }
}

/// The offers after a data device was told of the selection.
pub open spec fn selection_offers(selection: Option<DataSourceV>, device: Handle, offers: DataOffersV) -> DataOffersV {
    match selection {
        None => offers,
        Some(source) => offers.with_new(device.client, source.wl),
    }
}

/// The offers and the events after the data devices in a list that belong to `client` were told of
/// the selection, in order.
pub open spec fn selection_told(
    selection: Option<DataSourceV>,
    devices: Seq<Resource>,
    client: ClientId,
    offers: DataOffersV,
) -> (DataOffersV, Seq<Action>)
    decreases devices.len(),
{
    if devices.len() == 0 {
        (offers, Seq::empty())
    } else {
        let (o, a) = selection_told(selection, devices.drop_last(), client, offers);
        let device = devices.last().handle;
        if device.client == client {
            (selection_offers(selection, device, o), a + selection_events(selection, device, o))
        } else {
            (o, a)
        }
    }
}

/// The keyboard of the seat.
#[derive(Debug)]
pub struct Keyboard {
    pub mods: ModsState,
    pub focused_surface: Option<Handle>,
    pub selection: Option<DataSource>,
}

/// What a [`Keyboard`] says.
#[verifier::ext_equal]
pub struct KeyboardV {
    pub mods: ModsState,
    pub focused_surface: Option<Handle>,
    pub selection: Option<DataSourceV>,
}

/// What a data source that may be missing says.
pub open spec fn source_view(source: Option<DataSource>) -> Option<DataSourceV> {
    match source {
        Some(s) => Some(s@),
        None => None,
    }
}

impl View for Keyboard {
    type V = KeyboardV;

    open spec fn view(&self) -> KeyboardV {
        KeyboardV {
            mods: self.mods,
            focused_surface: self.focused_surface,
            selection: source_view(self.selection),
        }
    }
}

impl KeyboardV {
    /// What a new keyboard object is told.
    pub open spec fn init_events(self, keyboard: Resource) -> Seq<Action> {
        let keymap = seq![Action::KeyboardKeymap { keyboard: keyboard.handle }];
        let repeat = if keyboard.version >= 4 {
            keymap.push(Action::KeyboardRepeatInfo { keyboard: keyboard.handle, rate: 40, delay: 300 })
        } else {
            keymap
        };
        match self.focused_surface {
            Some(surface) if surface.client == keyboard.handle.client => repeat + DeviceEvent::KeyboardEnter {
                surface,
                mods: self.mods,
            }.sent_to(keyboard),
            _ => repeat,
        }
    }

    /// The offers and the events after the focused client was told of the selection.
    pub open spec fn told_focused(self, devices: Seq<Resource>, offers: DataOffersV) -> (DataOffersV, Seq<Action>) {
        match self.focused_surface {
            None => (offers, Seq::empty()),
            Some(surface) => selection_told(self.selection, devices, surface.client, offers),
        }
    }

    /// The offers and the events after the focus moves to `surface`: the old surface is left, a
    /// client that did not have the focus is told of the selection, and the new surface is entered.
    pub open spec fn focus_moves(
        self,
        surface: Option<Handle>,
        keyboards: Seq<Resource>,
        devices: Seq<Resource>,
        offers: DataOffersV,
    ) -> (DataOffersV, Seq<Action>) {
        if self.focused_surface == surface {
            (offers, Seq::empty())
        } else {
            let leave = match self.focused_surface {
                Some(old) => DeviceEvent::KeyboardLeave { surface: old }.sent_to_client(keyboards, old.client),
                None => Seq::empty(),
            };
            match surface {
                None => (offers, leave),
                Some(new) => {
                    let (o, told) = if self.focused_surface is Some && self.focused_surface->0.client == new.client {
                        (offers, Seq::empty())
                    } else {
                        selection_told(self.selection, devices, new.client, offers)
                    };
                    (
                        o,
                        leave + told + DeviceEvent::KeyboardEnter { surface: new, mods: self.mods }.sent_to_client(
                            keyboards,
                            new.client,
                        ),
                    )
                },
            }
        }
    }

    /// The events of a key that went down or up, after which `mods` are in effect.
    pub open spec fn key_events(
        self,
        keyboards: Seq<Resource>,
        mods: ModsState,
        key: u32,
        time: u32,
        pressed: bool,
    ) -> Seq<Action> {
        match self.focused_surface {
            None => Seq::empty(),
            Some(surface) => {
                let changed = if self.mods != mods {
                    DeviceEvent::KeyboardModifiers { mods }.sent_to_client(keyboards, surface.client)
                } else {
                    Seq::empty()
                };
                let state = if pressed {
                    PressState::Pressed
                } else {
                    PressState::Released
                };
                changed + DeviceEvent::KeyboardKey { time, key, state }.sent_to_client(keyboards, surface.client)
            },
        }
    }
}

impl Keyboard {
    /// A keyboard without focus.
    pub fn new(mods: ModsState) -> (r: Self)
        ensures
            r@ == (KeyboardV { mods, focused_surface: None, selection: None }),
    {
        Self { mods, focused_surface: None, selection: None }
    }

    /// Tells a new keyboard object the keymap and, if it has the focus, that it has.
    pub fn init_keyboard(&self, keyboard: Resource, actions: &mut Vec<Action>)
        ensures
            final(actions)@ == old(actions)@ + self@.init_events(keyboard),
    {
        let ghost before = actions@;
        actions.push(Action::KeyboardKeymap { keyboard: keyboard.handle });
        if keyboard.version >= 4 {
            actions.push(Action::KeyboardRepeatInfo { keyboard: keyboard.handle, rate: 40, delay: 300 });
        }
        if let Some(surface) = self.focused_surface {
            if surface.client == keyboard.handle.client {
                self.enter(keyboard, actions);
            }
        }
        assert(actions@ =~= before + self@.init_events(keyboard));
    }

    /// Tells a keyboard object that the focused surface has the focus.
    pub fn enter(&self, keyboard: Resource, actions: &mut Vec<Action>)
        ensures
            final(actions)@ == old(actions)@ + match self.focused_surface {
                Some(surface) => DeviceEvent::KeyboardEnter { surface, mods: self.mods }.sent_to(keyboard),
                None => Seq::empty(),
            },
    {
        let ghost before = actions@;
        if let Some(surface) = self.focused_surface {
            DeviceEvent::KeyboardEnter { surface, mods: self.mods }.send_to(keyboard, actions);
        } else {
            assert(actions@ =~= before + Seq::<Action>::empty());
        }
    }

    /// Moves the focus.
    pub fn focus_surface(
        &mut self,
        surface: Option<Handle>,
        keyboards: &Vec<Resource>,
        devices: &Vec<Resource>,
        offers: &mut DataOffers,
        actions: &mut Vec<Action>,
    )
        ensures
            final(self)@ == (KeyboardV { focused_surface: surface, ..old(self)@ }),
            final(offers)@ == old(self)@.focus_moves(surface, keyboards@, devices@, old(offers)@).0,
            final(actions)@ == old(actions)@ + old(self)@.focus_moves(surface, keyboards@, devices@, old(offers)@).1,
    {
        let ghost before = actions@;
        let ghost s0 = self@;
        let ghost offers0 = offers@;
        if self.focused_surface == surface {
            assert(actions@ =~= before + s0.focus_moves(surface, keyboards@, devices@, offers0).1);
            return ;
        }
        if let Some(old_surf) = self.focused_surface {
            DeviceEvent::KeyboardLeave { surface: old_surf }.send_to_client(keyboards, old_surf.client, actions);
        }
        let old_surface = self.focused_surface;
        self.focused_surface = surface;
        if let Some(new_surf) = surface {
            let same_client = match old_surface {
                Some(old_surf) => old_surf.client == new_surf.client,
                None => false,
            };
            if !same_client {
                self.send_selection_to_focused(devices, offers, actions);
            }
            DeviceEvent::KeyboardEnter { surface: new_surf, mods: self.mods }.send_to_client(
                keyboards,
                new_surf.client,
                actions,
            );
        }
        assert(actions@ =~= before + s0.focus_moves(surface, keyboards@, devices@, offers0).1);
    }

    /// The surface that has the focus.
    pub fn focused_surface(&self) -> (r: Option<Handle>)
        ensures
            r == self@.focused_surface,
    {
        self.focused_surface
    }

    /// Takes the focus away from a surface that is no longer shown.
    pub fn surface_unmapped(
        &mut self,
        surface: Handle,
        keyboards: &Vec<Resource>,
        devices: &Vec<Resource>,
        offers: &mut DataOffers,
        actions: &mut Vec<Action>,
    )
        ensures
            final(self)@ == (KeyboardV {
                focused_surface: if old(self)@.focused_surface == Some(surface) {
                    None
                } else {
                    old(self)@.focused_surface
                },
                ..old(self)@
            }),
            final(offers)@ == old(offers)@,
            final(actions)@ == old(actions)@ + if old(self)@.focused_surface == Some(surface) {
                DeviceEvent::KeyboardLeave { surface }.sent_to_client(keyboards@, surface.client)
            } else {
                Seq::empty()
            },
    {
        let ghost before = actions@;
        if self.focused_surface == Some(surface) {
            self.focus_surface(None, keyboards, devices, offers, actions);
        } else {
            assert(actions@ =~= before + Seq::<Action>::empty());
        }
    }

    /// Passes a key on. `mods` are the modifiers that are in effect after it.
    pub fn update_key(
        &mut self,
        key: u32,
        timestamp: InputTimestamp,
        pressed: bool,
        mods: ModsState,
        keyboards: &Vec<Resource>,
        actions: &mut Vec<Action>,
    )
        ensures
            final(self)@ == (KeyboardV { mods, ..old(self)@ }),
            final(actions)@ == old(actions)@ + old(self)@.key_events(keyboards@, mods, key, timestamp.0, pressed),
    {
        let ghost before = actions@;
        let ghost s0 = self@;
        if self.mods != mods {
            self.mods = mods;
            if let Some(surface) = self.focused_surface {
                DeviceEvent::KeyboardModifiers { mods }.send_to_client(keyboards, surface.client, actions);
            }
        }
        let state = if pressed {
            PressState::Pressed
        } else {
            PressState::Released
        };
        if let Some(surface) = self.focused_surface {
            DeviceEvent::KeyboardKey { time: timestamp.get(), key, state }.send_to_client(
                keyboards,
                surface.client,
                actions,
            );
        }
        assert(actions@ =~= before + s0.key_events(keyboards@, mods, key, timestamp.0, pressed));
    }

    /// Which of the modifiers with the given indices are held down or latched.
    pub fn get_mods(&self, logo_index: u32, alt_index: u32) -> (r: ModsMask)
        requires
            logo_index < 32,
            alt_index < 32,
        ensures
            r.logo == ((self@.mods.depressed | self@.mods.latched) & (1u32 << logo_index) != 0),
            r.alt == ((self@.mods.depressed | self@.mods.latched) & (1u32 << alt_index) != 0),
    {
        let mask: u32 = self.mods.depressed | self.mods.latched;
        ModsMask { logo: mask & (1u32 << logo_index) != 0, alt: mask & (1u32 << alt_index) != 0 }
    }

    /// Replaces the selection. The source of the old one is told, and so is the focused client.
    pub fn set_selection(
        &mut self,
        selection: Option<DataSource>,
        devices: &Vec<Resource>,
        offers: &mut DataOffers,
        actions: &mut Vec<Action>,
    )
        ensures
            final(self)@ == (KeyboardV { selection: source_view(selection), ..old(self)@ }),
            final(offers)@ == final(self)@.told_focused(devices@, old(offers)@).0,
            final(actions)@ == old(actions)@ + cancel_events(old(self)@.selection) + final(self)@.told_focused(
                devices@,
                old(offers)@,
            ).1,
    {
        let ghost before = actions@;
        if let Some(old_source) = &self.selection {
            actions.push(Action::DataSourceCancelled { source: old_source.wl });
        }
        assert(actions@ =~= before + cancel_events(old(self)@.selection));
        self.selection = selection;
        self.send_selection_to_focused(devices, offers, actions);
    }

    /// The source of the selection.
    pub fn get_selection(&self) -> (r: Option<Handle>)
        ensures
            r == match self@.selection {
                Some(s) => Some(s.wl),
                None => None,
            },
    {
        match &self.selection {
            Some(s) => Some(s.wl),
            None => None,
        }
    }

    /// Tells a data device of the selection.
    pub fn send_selection(&self, device: Handle, offers: &mut DataOffers, actions: &mut Vec<Action>)
        ensures
            final(offers)@ == selection_offers(self@.selection, device, old(offers)@),
            final(actions)@ == old(actions)@ + selection_events(self@.selection, device, old(offers)@),
    {
        let ghost before = actions@;
        let ghost offers0 = offers@;
        let offer = match &self.selection {
            None => None,
            Some(source) => Some(source.new_data_offer(device, offers, actions)),
        };
        actions.push(Action::DataDeviceSelection { device, offer });
        assert(actions@ =~= before + selection_events(self@.selection, device, offers0));
    }

    /// Tells the focused client of the selection.
    fn send_selection_to_focused(&self, devices: &Vec<Resource>, offers: &mut DataOffers, actions: &mut Vec<Action>)
        ensures
            final(offers)@ == self@.told_focused(devices@, old(offers)@).0,
            final(actions)@ == old(actions)@ + self@.told_focused(devices@, old(offers)@).1,
    {
        let ghost before = actions@;
        let ghost offers0 = offers@;
        if let Some(focused) = self.focused_surface {
            let client = focused.client;
            let ghost selection = self@.selection;
            let mut i: usize = 0;
            assert(devices@.take(0) =~= Seq::<Resource>::empty());
            assert(actions@ =~= before + selection_told(selection, devices@.take(0), client, offers0).1);
            while i < devices.len()
                invariant
                    i <= devices.len(),
                    selection == self@.selection,
                    offers@ == selection_told(selection, devices@.take(i as int), client, offers0).0,
                    actions@ == before + selection_told(selection, devices@.take(i as int), client, offers0).1,
                decreases devices.len() - i,
            {
                let ghost told = selection_told(selection, devices@.take(i as int), client, offers0);
                proof {
                    assert(devices@.take(i + 1).drop_last() =~= devices@.take(i as int));
                    assert(devices@.take(i + 1).last() == devices@[i as int]);
                }
                let device = devices[i].handle;
                if device.client == client {
                    self.send_selection(device, offers, actions);
                    assert(actions@ =~= before + (told.1 + selection_events(selection, device, told.0)));
                }
                i = i + 1;
            }
            assert(devices@.take(i as int) =~= devices@);
        } else {
            assert(actions@ =~= before + Seq::<Action>::empty());
        }
    }
}

/// The event that tells a source that it is no longer the selection.
pub open spec fn cancel_events(selection: Option<DataSourceV>) -> Seq<Action> {
    match selection {
        Some(s) => seq![Action::DataSourceCancelled { source: s.wl }],
        None => Seq::empty(),
    }
}

/// A surface that was given the focus by a keyboard loses it again before another one gets it: going
/// to another surface sends leave events for the old one first, then enter events for the new one.
pub proof fn law_focus_leaves_then_enters(
    k: KeyboardV,
    old_surface: Handle,
    new_surface: Handle,
    keyboards: Seq<Resource>,
    devices: Seq<Resource>,
    offers: DataOffersV,
)
    requires
        k.focused_surface == Some(old_surface),
        old_surface != new_surface,
    ensures
        ({
            let events = k.focus_moves(Some(new_surface), keyboards, devices, offers).1;
            let leave = DeviceEvent::KeyboardLeave { surface: old_surface }.sent_to_client(keyboards, old_surface.client);
            let enter = DeviceEvent::KeyboardEnter { surface: new_surface, mods: k.mods }.sent_to_client(
                keyboards,
                new_surface.client,
            );
            &&& events.len() >= leave.len() + enter.len()
            &&& events.take(leave.len() as int) == leave
            &&& events.skip(events.len() - enter.len()) == enter
        }),
{
    let events = k.focus_moves(Some(new_surface), keyboards, devices, offers).1;
    let leave = DeviceEvent::KeyboardLeave { surface: old_surface }.sent_to_client(keyboards, old_surface.client);
    let enter = DeviceEvent::KeyboardEnter { surface: new_surface, mods: k.mods }.sent_to_client(
        keyboards,
        new_surface.client,
    );
    assert(events.take(leave.len() as int) =~= leave);
    assert(events.skip(events.len() - enter.len()) =~= enter);
}

} // verus!
