//! Keyboard, pointer and selection.
use vstd::prelude::*;

use crate::client::ClientId;
use crate::error::Error;
use crate::protocol::{Action, Fixed, Handle, Resource};

pub mod delivery;
pub mod events;
pub mod keyboard;
pub mod pointer;

use events::{remove_resource, remove_resources_of, without, without_client, DeviceEvent};
use keyboard::{
    cancel_events, selection_events, selection_offers, source_view, DataOffer, DataOffers, DataOffersV, DataSource,
    DataSourceV, Keyboard, KeyboardV, ModsState,
};
use pointer::{Pointer, PointerV};

verus! {

/// The objects by which clients take part in the seat, of all clients.
#[derive(Debug)]
pub struct ClientSeat {
    pub keyboards: Vec<Resource>,
    pub pointers: Vec<Resource>,
    pub data_devices: Vec<Resource>,
    pub data_offers: DataOffers,
}

/// What a [`ClientSeat`] says.
#[verifier::ext_equal]
pub struct ClientSeatV {
    pub keyboards: Seq<Resource>,
    pub pointers: Seq<Resource>,
    pub data_devices: Seq<Resource>,
    pub data_offers: DataOffersV,
}

impl View for ClientSeat {
    type V = ClientSeatV;

    open spec fn view(&self) -> ClientSeatV {
        ClientSeatV {
            keyboards: self.keyboards@,
            pointers: self.pointers@,
            data_devices: self.data_devices@,
            data_offers: self.data_offers@,
        }
    }
}

/// Keyboard, pointer and selection.
#[derive(Debug)]
pub struct Seat {
    pub keyboard: Keyboard,
    pub pointer: Pointer,
    pub clients: ClientSeat,
    pub data_sources: Vec<DataSource>,
}

/// What a [`Seat`] says.
#[verifier::ext_equal]
pub struct SeatV {
    pub keyboard: KeyboardV,
    pub pointer: PointerV,
    pub clients: ClientSeatV,
    pub data_sources: Seq<DataSourceV>,
}

impl View for Seat {
    type V = SeatV;

    open spec fn view(&self) -> SeatV {
        SeatV {
            keyboard: self.keyboard@,
            pointer: self.pointer@,
            clients: self.clients@,
            data_sources: source_views(self.data_sources@),
        }
    }
}

/// Requests on the seat.
#[derive(Debug, Clone, Copy, PartialEq, Eq, Structural)]
pub enum SeatRequest {
    GetPointer(Resource),
    GetKeyboard(Resource),
    GetTouch,
    Release,
}

/// Requests on the data device manager.
#[derive(Debug, Clone, Copy, PartialEq, Eq, Structural)]
pub enum DataDeviceManagerRequest {
    CreateDataSource(Handle),
    GetDataDevice(Resource),
}

/// Requests on a data source.
#[derive(Debug)]
pub enum DataSourceRequest {
    Offer(String),
    Destroy,
}

/// Requests on a data device.
#[derive(Debug, Clone, Copy, PartialEq, Eq, Structural)]
pub enum DataDeviceRequest {
    SetSelection(Option<Handle>),
    Release,
}

/// Requests on a data offer.
#[derive(Debug)]
pub enum DataOfferRequest {
    Receive(String),
    Destroy,
}

/// The place of a source in a list, if it is there.
pub open spec fn source_index(sources: Seq<DataSourceV>, wl: Handle) -> Option<int>
    decreases sources.len(),
{
    if sources.len() == 0 {
        None
    } else if sources.last().wl == wl {
        Some(sources.len() - 1)
    } else {
        source_index(sources.drop_last(), wl)
    }
}

/// The source of an offer, if the offer is known.
pub open spec fn offer_source(offers: Seq<DataOffer>, offer: Handle) -> Option<Handle>
    decreases offers.len(),
{
    if offers.len() == 0 {
        None
    } else if offers.last().offer == offer {
        Some(offers.last().source)
    } else {
        offer_source(offers.drop_last(), offer)
    }
}

/// The offers that are left when one is taken out.
pub open spec fn without_offer(offers: Seq<DataOffer>, offer: Handle) -> Seq<DataOffer>
    decreases offers.len(),
{
    if offers.len() == 0 {
        Seq::empty()
    } else {
        let before = without_offer(offers.drop_last(), offer);
        if offers.last().offer == offer {
            before
        } else {
            before.push(offers.last())
        }
    }
}

/// The offers that are left when those to a client are taken out.
pub open spec fn without_offers_to(offers: Seq<DataOffer>, client: ClientId) -> Seq<DataOffer>
    decreases offers.len(),
{
    if offers.len() == 0 {
        Seq::empty()
    } else {
        let before = without_offers_to(offers.drop_last(), client);
        if offers.last().offer.client == client {
            before
        } else {
            before.push(offers.last())
        }
    }
}

/// The sources that are left when those of a client are taken out.
pub open spec fn without_sources_of(sources: Seq<DataSourceV>, client: ClientId) -> Seq<DataSourceV>
    decreases sources.len(),
{
    if sources.len() == 0 {
        Seq::empty()
    } else {
        let before = without_sources_of(sources.drop_last(), client);
        if sources.last().wl.client == client {
            before
        } else {
            before.push(sources.last())
        }
    }
}

impl SeatV {
    /// The seat after the keyboard focus moved.
    pub open spec fn focused(self, surface: Option<Handle>) -> SeatV {
        let (offers, _) = self.keyboard.focus_moves(
            surface,
            self.clients.keyboards,
            self.clients.data_devices,
            self.clients.data_offers,
        );
        SeatV {
            keyboard: KeyboardV { focused_surface: surface, ..self.keyboard },
            clients: ClientSeatV { data_offers: offers, ..self.clients },
            ..self
        }
    }

    /// What is sent when the keyboard focus moves.
    pub open spec fn focus_events(self, surface: Option<Handle>) -> Seq<Action> {
        self.keyboard.focus_moves(
            surface,
            self.clients.keyboards,
            self.clients.data_devices,
            self.clients.data_offers,
        ).1
    }

    /// The seat after a surface is no longer shown: neither keyboard nor pointer is on it.
    pub open spec fn surface_gone(self, surface: Handle) -> SeatV {
        SeatV {
            keyboard: KeyboardV {
                focused_surface: if self.keyboard.focused_surface == Some(surface) {
                    None
                } else {
                    self.keyboard.focused_surface
                },
                ..self.keyboard
            },
            pointer: if self.pointer.state.surface() == Some(surface) {
                self.pointer.left()
            } else {
                self.pointer
            },
            ..self
        }
    }

    /// What is sent when a surface is no longer shown.
    pub open spec fn surface_gone_events(self, surface: Handle) -> Seq<Action> {
        let keyboard = if self.keyboard.focused_surface == Some(surface) {
            DeviceEvent::KeyboardLeave { surface }.sent_to_client(self.clients.keyboards, surface.client)
        } else {
            Seq::empty()
        };
        let pointer = if self.pointer.state.surface() == Some(surface) {
            self.pointer.state.leave_events(self.clients.pointers)
        } else {
            Seq::empty()
        };
        keyboard + pointer
    }

    /// The seat after the selection was replaced.
    pub open spec fn selected(self, selection: Option<DataSourceV>) -> SeatV {
        let keyboard = KeyboardV { selection, ..self.keyboard };
        let (offers, _) = keyboard.told_focused(self.clients.data_devices, self.clients.data_offers);
        SeatV { keyboard, clients: ClientSeatV { data_offers: offers, ..self.clients }, ..self }
    }

    /// What is sent when the selection is replaced.
    pub open spec fn selected_events(self, selection: Option<DataSourceV>) -> Seq<Action> {
        let keyboard = KeyboardV { selection, ..self.keyboard };
        cancel_events(self.keyboard.selection) + keyboard.told_focused(
            self.clients.data_devices,
            self.clients.data_offers,
        ).1
    }

    /// The source of the selection.
    pub open spec fn selection_source(self) -> Option<Handle> {
        match self.keyboard.selection {
            Some(s) => Some(s.wl),
            None => None,
        }
    }

    /// The seat after the selection was dropped if it comes from `wl`.
    pub open spec fn deselected_if(self, drop: bool) -> SeatV {
        if drop {
            self.selected(None)
        } else {
            self
        }
    }

    /// What is sent on that account.
    pub open spec fn deselected_events(self, drop: bool) -> Seq<Action> {
        if drop {
            self.selected_events(None)
        } else {
            Seq::empty()
        }
    }

    /// The seat without a trace of the objects of a client.
    pub open spec fn without_objects_of(self, client: ClientId) -> SeatV {
        SeatV {
            clients: ClientSeatV {
                keyboards: without_client(self.clients.keyboards, client),
                pointers: without_client(self.clients.pointers, client),
                data_devices: without_client(self.clients.data_devices, client),
                data_offers: DataOffersV {
                    list: without_offers_to(self.clients.data_offers.list, client),
                    ..self.clients.data_offers
                },
            },
            data_sources: without_sources_of(self.data_sources, client),
            ..self
        }
    }
}

/// A surface that is no longer shown has neither the keyboard nor the pointer, and nothing changes
/// for the surfaces that do not.
pub proof fn law_surface_gone(seat: SeatV, surface: Handle)
    ensures
        seat.surface_gone(surface).keyboard.focused_surface != Some(surface),
        seat.surface_gone(surface).pointer.state.surface() != Some(surface),
        seat.surface_gone(surface).surface_gone_events(surface) == Seq::<Action>::empty(),
        seat.keyboard.focused_surface != Some(surface) && seat.pointer.state.surface() != Some(surface)
            ==> seat.surface_gone(surface) == seat && seat.surface_gone_events(surface) == Seq::<Action>::empty(),
{
    assert(seat.surface_gone(surface).surface_gone_events(surface) =~= Seq::<Action>::empty());
    if seat.keyboard.focused_surface != Some(surface) && seat.pointer.state.surface() != Some(surface) {
        assert(seat.surface_gone_events(surface) =~= Seq::<Action>::empty());
    }
}

impl Seat {
    /// A seat that no client takes part in.
    pub fn new(mods: ModsState) -> (r: Self)
        ensures
            r@.keyboard == (KeyboardV { mods, focused_surface: None, selection: None }),
            r@.pointer.state is Idle,
            r@.pointer.x == Fixed(0) && r@.pointer.y == Fixed(0),
            r@.pointer.pressed_buttons.len() == 0,
            r@.clients == (ClientSeatV {
                keyboards: Seq::empty(),
                pointers: Seq::empty(),
                data_devices: Seq::empty(),
                data_offers: DataOffersV { list: Seq::empty(), next_key: 0 },
            }),
            r@.data_sources.len() == 0,
    {
        Self {
            keyboard: Keyboard::new(mods),
            pointer: Pointer::new(),
            clients: ClientSeat {
                keyboards: Vec::new(),
                pointers: Vec::new(),
                data_devices: Vec::new(),
                data_offers: DataOffers { list: Vec::new(), next_key: 0 },
            },
            data_sources: Vec::new(),
        }
    }

    /// Moves the keyboard focus.
    pub fn kbd_focus_surface(&mut self, surface: Option<Handle>, actions: &mut Vec<Action>)
        ensures
            final(self)@ == old(self)@.focused(surface),
            final(actions)@ == old(actions)@ + old(self)@.focus_events(surface),
    {
        self.keyboard.focus_surface(
            surface,
            &self.clients.keyboards,
            &self.clients.data_devices,
            &mut self.clients.data_offers,
            actions,
        );
    }

    /// Takes keyboard and pointer off a surface that is no longer shown.
    pub fn surface_unmapped(&mut self, surface: Handle, actions: &mut Vec<Action>)
        ensures
            final(self)@ == old(self)@.surface_gone(surface),
            final(actions)@ == old(actions)@ + old(self)@.surface_gone_events(surface),
    {
        let ghost before = actions@;
        self.keyboard.surface_unmapped(
            surface,
            &self.clients.keyboards,
            &self.clients.data_devices,
            &mut self.clients.data_offers,
            actions,
        );
        self.pointer.surface_unmapped(surface, &self.clients.pointers, actions);
        assert(actions@ =~= before + old(self)@.surface_gone_events(surface));
    }

    /// Replaces the selection.
    pub fn set_selection(&mut self, selection: Option<DataSource>, actions: &mut Vec<Action>)
        ensures
            final(self)@ == old(self)@.selected(source_view(selection)),
            final(actions)@ == old(actions)@ + old(self)@.selected_events(source_view(selection)),
    {
        let ghost before = actions@;
        self.keyboard.set_selection(
            selection,
            &self.clients.data_devices,
            &mut self.clients.data_offers,
            actions,
        );
        assert(actions@ =~= before + old(self)@.selected_events(source_view(selection)));
    }

    /// Forgets a client. If the selection is its own, there is none afterwards.
    pub fn remove_client(&mut self, client: ClientId, actions: &mut Vec<Action>)
        ensures
            ({
                let drop = old(self)@.selection_source() matches Some(h) && h.client == client;
                &&& final(self)@ == old(self)@.deselected_if(drop).without_objects_of(client)
                &&& final(actions)@ == old(actions)@ + old(self)@.deselected_events(drop)
            }),
    {
        let ghost before = actions@;
        let drop_it = match self.keyboard.get_selection() {
            Some(h) => h.client == client,
            None => false,
        };
        if drop_it {
            self.set_selection(None, actions);
        } else {
            assert(actions@ =~= before + Seq::<Action>::empty());
        }
        remove_resources_of(&mut self.clients.keyboards, client);
        remove_resources_of(&mut self.clients.pointers, client);
        remove_resources_of(&mut self.clients.data_devices, client);
        self.clients.data_offers.remove_offers_to(client);
        remove_sources_of(&mut self.data_sources, client);
    }
}

impl DataOffers {
    /// Takes the offers to a client out.
    fn remove_offers_to(&mut self, client: ClientId)
        ensures
            final(self)@ == (DataOffersV { list: without_offers_to(old(self)@.list, client), ..old(self)@ }),
    {
        let mut kept: Vec<DataOffer> = Vec::new();
        let mut i: usize = 0;
        assert(self.list@.take(0) =~= Seq::<DataOffer>::empty());
        while i < self.list.len()
            invariant
                i <= self.list.len(),
                *self == *old(self),
                kept@ == without_offers_to(self.list@.take(i as int), client),
            decreases self.list.len() - i,
        {
            assert(self.list@.take(i + 1).drop_last() =~= self.list@.take(i as int));
            if self.list[i].offer.client != client {
                kept.push(self.list[i]);
            }
            i = i + 1;
        }
        assert(self.list@.take(i as int) =~= self.list@);
        self.list = kept;
    }

    /// Takes one offer out.
    fn remove_offer(&mut self, offer: Handle)
        ensures
            final(self)@ == (DataOffersV { list: without_offer(old(self)@.list, offer), ..old(self)@ }),
    {
        let mut kept: Vec<DataOffer> = Vec::new();
        let mut i: usize = 0;
        assert(self.list@.take(0) =~= Seq::<DataOffer>::empty());
        while i < self.list.len()
            invariant
                i <= self.list.len(),
                *self == *old(self),
                kept@ == without_offer(self.list@.take(i as int), offer),
            decreases self.list.len() - i,
        {
            assert(self.list@.take(i + 1).drop_last() =~= self.list@.take(i as int));
            if self.list[i].offer != offer {
                kept.push(self.list[i]);
            }
            i = i + 1;
        }
        assert(self.list@.take(i as int) =~= self.list@);
        self.list = kept;
    }

    /// The source of an offer.
    fn source_of(&self, offer: Handle) -> (r: Option<Handle>)
        ensures
            r == offer_source(self@.list, offer),
    {
        let mut i: usize = self.list.len();
        assert(self.list@.take(i as int) =~= self.list@);
        while i > 0
            invariant
                i <= self.list.len(),
                offer_source(self.list@, offer) == offer_source(self.list@.take(i as int), offer),
            decreases i,
        {
            assert(self.list@.take(i as int).drop_last() =~= self.list@.take(i - 1));
            i = i - 1;
            if self.list[i].offer == offer {
                return Some(self.list[i].source);
            }
        }
        None
    }
}

/// What the sources in a list say.
pub open spec fn source_views(sources: Seq<DataSource>) -> Seq<DataSourceV> {
    sources.map_values(|s: DataSource| s@)
}

/// Takes the sources of a client out of a list.
fn remove_sources_of(sources: &mut Vec<DataSource>, client: ClientId)
    ensures
        source_views(final(sources)@) == without_sources_of(source_views(old(sources)@), client),
{
    let mut i: usize = 0;
    let ghost all = source_views(sources@);
    let ghost mut done: int = 0;
    assert(all.take(0) =~= Seq::<DataSourceV>::empty());
    assert(source_views(sources@) =~= without_sources_of(all.take(0), client) + all.skip(0));
    while i < sources.len()
        invariant
            i <= sources.len(),
            0 <= done <= all.len(),
            i == without_sources_of(all.take(done), client).len(),
            source_views(sources@) == without_sources_of(all.take(done), client) + all.skip(done),
        decreases sources.len() - i,
    {
        let ghost kept = without_sources_of(all.take(done), client);
        proof {
            assert(sources@.len() == source_views(sources@).len());
            assert(all.skip(done).len() > 0);
            assert(source_views(sources@)[i as int] == all[done]);
            assert(all.take(done + 1).drop_last() =~= all.take(done));
            assert(all.take(done + 1).last() == all[done]);
        }
        if sources[i].wl.client == client {
            let ghost before = sources@;
            let _ = sources.remove(i);
            assert forall|k: int| 0 <= k < sources@.len() implies #[trigger] source_views(sources@)[k] == (kept + all.skip(
                done + 1,
            ))[k] by {
                if k >= i {
                    assert(sources@[k] == before[k + 1]);
                    assert(source_views(before)[k + 1] == (kept + all.skip(done))[k + 1]);
                } else {
                    assert(source_views(before)[k] == (kept + all.skip(done))[k]);
                }
            }
            assert(source_views(sources@) =~= kept + all.skip(done + 1));
        } else {
            i = i + 1;
            assert(source_views(sources@) =~= kept.push(all[done]) + all.skip(done + 1));
        }
        proof {
            done = done + 1;
        }
    }
    proof {
        assert(sources@.len() == source_views(sources@).len());
        assert(all.skip(done).len() == 0);
        assert(all.take(done) =~= all);
        assert(source_views(sources@) =~= without_sources_of(all, client));
    }
}

/// The place of a source in a list.
fn find_source(sources: &Vec<DataSource>, wl: Handle) -> (r: Option<usize>)
    ensures
        match r {
            Some(k) => k < sources@.len() && source_index(source_views(sources@), wl) == Some(k as int),
            None => source_index(source_views(sources@), wl) is None,
        },
{
    let mut i: usize = sources.len();
    let ghost all = source_views(sources@);
    assert(all.take(i as int) =~= all);
    while i > 0
        invariant
            i <= sources.len(),
            all == source_views(sources@),
            source_index(all, wl) == source_index(all.take(i as int), wl),
        decreases i,
    {
        assert(all.take(i as int).drop_last() =~= all.take(i - 1));
        i = i - 1;
        assert(all[i as int] == sources@[i as int]@);
        if sources[i].wl == wl {
            return Some(i);
        }
    }
    None
}

/// What comes of a request on an object of the seat.
#[verifier::ext_equal]
pub struct SeatOutcome {
    pub seat: SeatV,
    pub actions: Seq<Action>,
    pub result: Result<(), Error>,
}

impl SeatV {
    /// What comes of a request on the seat.
    pub open spec fn after_seat_request(self, request: SeatRequest) -> SeatOutcome {
        match request {
            SeatRequest::GetPointer(p) => SeatOutcome {
                seat: SeatV { clients: ClientSeatV { pointers: self.clients.pointers.push(p), ..self.clients }, ..self },
                actions: self.pointer.init_events(p),
                result: Ok(()),
            },
            SeatRequest::GetKeyboard(k) => SeatOutcome {
                seat: SeatV { clients: ClientSeatV { keyboards: self.clients.keyboards.push(k), ..self.clients }, ..self },
                actions: self.keyboard.init_events(k),
                result: Ok(()),
            },
            SeatRequest::GetTouch => SeatOutcome {
                seat: self,
                actions: Seq::empty(),
                result: Err(Error::TouchNotSupported),
            },
            SeatRequest::Release => SeatOutcome { seat: self, actions: Seq::empty(), result: Ok(()) },
        }
    }

    /// What comes of a request on the data device manager: a client that has the focus learns of
    /// the selection by its new data device.
    pub open spec fn after_manager_request(self, request: DataDeviceManagerRequest) -> SeatOutcome {
        match request {
            DataDeviceManagerRequest::CreateDataSource(wl) => SeatOutcome {
                seat: SeatV { data_sources: self.data_sources.push(DataSourceV { wl, mime: Seq::empty() }), ..self },
                actions: Seq::empty(),
                result: Ok(()),
            },
            DataDeviceManagerRequest::GetDataDevice(device) => {
                let tell = self.keyboard.focused_surface matches Some(s) && s.client == device.handle.client;
                SeatOutcome {
                    seat: SeatV {
                        clients: ClientSeatV {
                            data_devices: self.clients.data_devices.push(device),
                            data_offers: if tell {
                                selection_offers(self.keyboard.selection, device.handle, self.clients.data_offers)
                            } else {
                                self.clients.data_offers
                            },
                            ..self.clients
                        },
                        ..self
                    },
                    actions: if tell {
                        selection_events(self.keyboard.selection, device.handle, self.clients.data_offers)
                    } else {
                        Seq::empty()
                    },
                    result: Ok(()),
                }
            },
        }
    }

    /// The seat without the source `wl` among those that are not in use.
    pub open spec fn without_source(self, wl: Handle) -> SeatV {
        match source_index(self.data_sources, wl) {
            Some(k) => SeatV { data_sources: self.data_sources.remove(k), ..self },
            None => self,
        }
    }

    /// What comes of a request on the data source `wl`.
    pub open spec fn after_source_request(self, wl: Handle, request: DataSourceRequest) -> SeatOutcome {
        match request {
            DataSourceRequest::Offer(mime) => match source_index(self.data_sources, wl) {
                None => SeatOutcome { seat: self, actions: Seq::empty(), result: Err(Error::UsedDataSource) },
                Some(k) => SeatOutcome {
                    seat: SeatV {
                        data_sources: self.data_sources.update(
                            k,
                            DataSourceV { mime: self.data_sources[k].mime.push(mime), ..self.data_sources[k] },
                        ),
                        ..self
                    },
                    actions: Seq::empty(),
                    result: Ok(()),
                },
            },
            DataSourceRequest::Destroy => {
                let drop = self.selection_source() == Some(wl);
                SeatOutcome {
                    seat: self.deselected_if(drop).without_source(wl),
                    actions: self.deselected_events(drop),
                    result: Ok(()),
                }
            },
        }
    }

    /// What comes of a request on the data device `wl`.
    pub open spec fn after_device_request(self, wl: Handle, request: DataDeviceRequest) -> SeatOutcome {
        match request {
            DataDeviceRequest::SetSelection(None) => SeatOutcome {
                seat: self.selected(None),
                actions: self.selected_events(None),
                result: Ok(()),
            },
            DataDeviceRequest::SetSelection(Some(source)) => match source_index(self.data_sources, source) {
                None => SeatOutcome { seat: self, actions: Seq::empty(), result: Err(Error::UsedDataSource) },
                Some(k) => SeatOutcome {
                    seat: self.without_source(source).selected(Some(self.data_sources[k])),
                    actions: self.selected_events(Some(self.data_sources[k])),
                    result: Ok(()),
                },
            },
            DataDeviceRequest::Release => SeatOutcome {
                seat: SeatV {
                    clients: ClientSeatV { data_devices: without(self.clients.data_devices, wl), ..self.clients },
                    ..self
                },
                actions: Seq::empty(),
                result: Ok(()),
            },
        }
    }

    /// What comes of a request on the data offer `wl`, whose source still takes events or not.
    pub open spec fn after_offer_request(self, wl: Handle, request: DataOfferRequest, source_alive: bool) -> SeatOutcome {
        match request {
            DataOfferRequest::Receive(mime) => SeatOutcome {
                seat: self,
                actions: if source_alive {
                    seq![
                        Action::DataSourceSend { source: offer_source(self.clients.data_offers.list, wl)->0, mime },
                    ]
                } else {
                    Seq::empty()
                },
                result: Ok(()),
            },
            DataOfferRequest::Destroy => SeatOutcome {
                seat: SeatV {
                    clients: ClientSeatV {
                        data_offers: DataOffersV {
                            list: without_offer(self.clients.data_offers.list, wl),
                            ..self.clients.data_offers
                        },
                        ..self.clients
                    },
                    ..self
                },
                actions: Seq::empty(),
                result: Ok(()),
            },
        }
    }
}

impl Seat {
    /// Handles a request on the seat.
    pub fn wl_seat_cb(&mut self, request: SeatRequest, actions: &mut Vec<Action>) -> (r: Result<(), Error>)
        ensures
            final(self)@ == old(self)@.after_seat_request(request).seat,
            final(actions)@ == old(actions)@ + old(self)@.after_seat_request(request).actions,
            r == old(self)@.after_seat_request(request).result,
    {
        let ghost before = actions@;
        match request {
            SeatRequest::GetPointer(p) => {
                self.pointer.init_new_resource(p, actions);
                self.clients.pointers.push(p);
            },
            SeatRequest::GetKeyboard(k) => {
                self.keyboard.init_keyboard(k, actions);
                self.clients.keyboards.push(k);
            },
            SeatRequest::GetTouch => {
                assert(actions@ =~= before + Seq::<Action>::empty());
                return Err(Error::TouchNotSupported);
            },
            SeatRequest::Release => {
                assert(actions@ =~= before + Seq::<Action>::empty());
            },
        }
        Ok(())
    }

    /// Handles a request on the data device manager.
    pub fn wl_data_device_manager_cb(
        &mut self,
        request: DataDeviceManagerRequest,
        actions: &mut Vec<Action>,
    ) -> (r: Result<(), Error>)
        ensures
            final(self)@ == old(self)@.after_manager_request(request).seat,
            final(actions)@ == old(actions)@ + old(self)@.after_manager_request(request).actions,
            r == old(self)@.after_manager_request(request).result,
    {
        let ghost before = actions@;
        match request {
            DataDeviceManagerRequest::CreateDataSource(wl) => {
                self.data_sources.push(DataSource { wl, mime: Vec::new() });
                assert(self@.data_sources =~= old(self)@.data_sources.push(DataSourceV { wl, mime: Seq::empty() }));
                assert(actions@ =~= before + Seq::<Action>::empty());
            },
            DataDeviceManagerRequest::GetDataDevice(device) => {
                let tell = match self.keyboard.focused_surface() {
                    Some(s) => s.client == device.handle.client,
                    None => false,
                };
                if tell {
                    self.keyboard.send_selection(device.handle, &mut self.clients.data_offers, actions);
                } else {
                    assert(actions@ =~= before + Seq::<Action>::empty());
                }
                self.clients.data_devices.push(device);
            },
        }
        Ok(())
    }

    /// Handles a request on a data source.
    pub fn wl_data_source_cb(
        &mut self,
        wl: Handle,
        request: DataSourceRequest,
        actions: &mut Vec<Action>,
    ) -> (r: Result<(), Error>)
        ensures
            final(self)@ == old(self)@.after_source_request(wl, request).seat,
            final(actions)@ == old(actions)@ + old(self)@.after_source_request(wl, request).actions,
            r == old(self)@.after_source_request(wl, request).result,
    {
        let ghost before = actions@;
        let ghost seat0 = self@;
        match request {
            DataSourceRequest::Offer(mime) => {
                assert(actions@ =~= before + Seq::<Action>::empty());
                match find_source(&self.data_sources, wl) {
                    None => return Err(Error::UsedDataSource),
                    Some(k) => {
                        self.data_sources[k].mime.push(mime);
                        assert(self@.data_sources =~= seat0.data_sources.update(
                            k as int,
                            DataSourceV {
                                mime: seat0.data_sources[k as int].mime.push(mime),
                                ..seat0.data_sources[k as int]
                            },
                        ));
                    },
                }
            },
            DataSourceRequest::Destroy => {
                if self.keyboard.get_selection() == Some(wl) {
                    self.set_selection(None, actions);
                } else {
                    assert(actions@ =~= before + Seq::<Action>::empty());
                }
                let ghost seat1 = self@;
                if let Some(k) = find_source(&self.data_sources, wl) {
                    let _ = self.data_sources.remove(k);
                    assert(self@.data_sources =~= seat1.data_sources.remove(k as int));
                }
            },
        }
        Ok(())
    }

    /// Handles a request on a data device.
    pub fn wl_data_device_cb(
        &mut self,
        wl: Handle,
        request: DataDeviceRequest,
        actions: &mut Vec<Action>,
    ) -> (r: Result<(), Error>)
        ensures
            final(self)@ == old(self)@.after_device_request(wl, request).seat,
            final(actions)@ == old(actions)@ + old(self)@.after_device_request(wl, request).actions,
            r == old(self)@.after_device_request(wl, request).result,
    {
        let ghost before = actions@;
        let ghost seat0 = self@;
        match request {
            DataDeviceRequest::SetSelection(source) => match source {
                None => {
                    self.set_selection(None, actions);
                },
                Some(source) => match find_source(&self.data_sources, source) {
                    None => {
                        assert(actions@ =~= before + Seq::<Action>::empty());
                        return Err(Error::UsedDataSource);
                    },
                    Some(k) => {
                        let taken = self.data_sources.remove(k);
                        assert(self@.data_sources =~= seat0.data_sources.remove(k as int));
                        self.set_selection(Some(taken), actions);
                    },
                },
            },
            DataDeviceRequest::Release => {
                assert(actions@ =~= before + Seq::<Action>::empty());
                remove_resource(&mut self.clients.data_devices, wl);
            },
        }
        Ok(())
    }

    /// Handles a request on a data offer.
    pub fn wl_data_offer_cb(
        &mut self,
        wl: Handle,
        request: DataOfferRequest,
        source_alive: bool,
        actions: &mut Vec<Action>,
    ) -> (r: Result<(), Error>)
        requires
            offer_source(old(self)@.clients.data_offers.list, wl) is Some,
        ensures
            final(self)@ == old(self)@.after_offer_request(wl, request, source_alive).seat,
            final(actions)@ == old(actions)@ + old(self)@.after_offer_request(wl, request, source_alive).actions,
            r == old(self)@.after_offer_request(wl, request, source_alive).result,
    {
        let ghost before = actions@;
        match request {
            DataOfferRequest::Receive(mime) => {
                if let Some(source) = self.clients.data_offers.source_of(wl) {
                    if source_alive {
                        actions.push(Action::DataSourceSend { source, mime });
                    }
                }
                assert(actions@ =~= before + old(self)@.after_offer_request(wl, request, source_alive).actions);
            },
            DataOfferRequest::Destroy => {
                assert(actions@ =~= before + Seq::<Action>::empty());
                self.clients.data_offers.remove_offer(wl);
            },
        }
        Ok(())
    }

    /// The source of a data offer, if the offer is known.
    pub fn data_offer_source(&self, wl: Handle) -> (r: Option<Handle>)
        ensures
            r == offer_source(self@.clients.data_offers.list, wl),
    {
        self.clients.data_offers.source_of(wl)
    }

    /// Forgets a keyboard object that was released.
    pub fn wl_keyboard_cb(&mut self, wl: Handle)
        ensures
            final(self)@ == (SeatV {
                clients: ClientSeatV { keyboards: without(old(self)@.clients.keyboards, wl), ..old(self)@.clients },
                ..old(self)@
            }),
    {
        remove_resource(&mut self.clients.keyboards, wl);
    }

    /// Forgets a pointer object that was released.
    pub fn release_pointer(&mut self, wl: Handle)
        ensures
            final(self)@ == (SeatV {
                clients: ClientSeatV { pointers: without(old(self)@.clients.pointers, wl), ..old(self)@.clients },
                ..old(self)@
            }),
    {
        remove_resource(&mut self.clients.pointers, wl);
    }
}

/// A new offer is known by its own handle, and leads back to its source.
pub proof fn law_new_offer_leads_to_source(offers: DataOffersV, client: ClientId, source: Handle)
    ensures
        offer_source(offers.with_new(client, source).list, Handle { client, key: offers.next_key }) == Some(source),
{
    let new = offers.with_new(client, source);
    assert(new.list.last() == DataOffer { offer: Handle { client, key: offers.next_key }, source });
}

/// A source that became the selection cannot be used a second time.
pub proof fn law_source_used_once(seat: SeatV, device: Handle, source: Handle)
    requires
        source_index(seat.data_sources, source) is Some,
        forall|j: int, k: int|
            0 <= j < k < seat.data_sources.len() ==> (#[trigger] seat.data_sources[j]).wl != (
            #[trigger] seat.data_sources[k]).wl,
    ensures
        ({
            let after = seat.after_device_request(device, DataDeviceRequest::SetSelection(Some(source))).seat;
            &&& after.selection_source() == Some(source)
            &&& after.after_device_request(device, DataDeviceRequest::SetSelection(Some(source))).result == Err::<
                (),
                Error,
            >(Error::UsedDataSource)
        }),
{
    lemma_source_index(seat.data_sources, source);
    let k = source_index(seat.data_sources, source)->0;
    let rest = seat.data_sources.remove(k);
    assert forall|j: int| 0 <= j < rest.len() implies (#[trigger] rest[j]).wl != source by {
        if j < k {
            assert(rest[j] == seat.data_sources[j]);
        } else {
            assert(rest[j] == seat.data_sources[j + 1]);
        }
    }
    lemma_source_index(rest, source);
}

proof fn lemma_source_index(sources: Seq<DataSourceV>, wl: Handle)
    ensures
        match source_index(sources, wl) {
            Some(k) => 0 <= k < sources.len() && sources[k].wl == wl,
            None => forall|j: int| 0 <= j < sources.len() ==> (#[trigger] sources[j]).wl != wl,
        },
    decreases sources.len(),
{
    if sources.len() > 0 {
        lemma_source_index(sources.drop_last(), wl);
        if source_index(sources, wl) is None {
            assert forall|j: int| 0 <= j < sources.len() implies (#[trigger] sources[j]).wl != wl by {
                if j < sources.len() - 1 {
                    assert(sources.drop_last()[j] == sources[j]);
                }
            }
        }
    }
}

} // verus!
