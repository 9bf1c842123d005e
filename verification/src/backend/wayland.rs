//! The decisions of the backend that shows the compositor in a window of another one.
use vstd::prelude::*;

use std::collections::VecDeque;

use crate::backend::drmkms::{read_u32, u32_at, ByteOrder};
use crate::backend::{next_id, BackendEvent, InputTimestamp, KeyboardId, PointerId};
use crate::protocol::{Fixed, PressState};

verus! {

/// A keyboard of the other compositor. Its object and its seat are known by their numbers.
#[derive(Debug)]
pub struct Keyboard {
    pub id: KeyboardId,
    pub wl: u32,
    pub seat: u32,
    pub pressed_keys: Vec<u32>,
    /// The keys that were held down when the window got the focus.
    pub entered_with_keys: Vec<u32>,
}

/// What a [`Keyboard`] says.
#[verifier::ext_equal]
pub struct KeyboardV {
    pub id: KeyboardId,
    pub wl: u32,
    pub seat: u32,
    pub pressed_keys: Seq<u32>,
    pub entered_with_keys: Seq<u32>,
}

impl View for Keyboard {
    type V = KeyboardV;

    open spec fn view(&self) -> KeyboardV {
        KeyboardV {
            id: self.id,
            wl: self.wl,
            seat: self.seat,
            pressed_keys: self.pressed_keys@,
            entered_with_keys: self.entered_with_keys@,
        }
    }
}

/// A pointer of the other compositor.
#[derive(Debug, Clone, Copy, PartialEq, Eq, Structural)]
pub struct Pointer {
    pub id: PointerId,
    pub wl: u32,
    pub seat: u32,
}

/// A buffer that frames are drawn to, and whether the other compositor still shows it.
#[derive(Debug, Clone, Copy, PartialEq, Eq, Structural)]
pub struct GlBuf {
    pub wl: u32,
    pub in_use: bool,
}

/// The buffers that frames of one size are drawn to.
#[derive(Debug)]
pub struct GlSwapchain {
    pub width: u32,
    pub height: u32,
    pub bufs: Vec<GlBuf>,
}

/// What a [`GlSwapchain`] says.
#[verifier::ext_equal]
pub struct GlSwapchainV {
    pub width: u32,
    pub height: u32,
    pub bufs: Seq<GlBuf>,
}

impl View for GlSwapchain {
    type V = GlSwapchainV;

    open spec fn view(&self) -> GlSwapchainV {
        GlSwapchainV { width: self.width, height: self.height, bufs: self.bufs@ }
    }
}

/// What is known of the window and of the input devices.
#[derive(Debug)]
pub struct State {
    pub backend_events_queue: VecDeque<BackendEvent>,
    pub next_input_id: u64,
    pub keyboards: Vec<Keyboard>,
    pub pointers: Vec<Pointer>,
    /// Whether the next frame has to wait.
    pub throttled: bool,
    pub mapped: bool,
    pub width: u32,
    pub height: u32,
}

/// What a [`State`] says.
#[verifier::ext_equal]
pub struct WindowV {
    pub queue: Seq<BackendEvent>,
    pub next_input_id: u64,
    pub keyboards: Seq<KeyboardV>,
    pub pointers: Seq<Pointer>,
    pub throttled: bool,
    pub mapped: bool,
    pub width: u32,
    pub height: u32,
}

/// What several keyboards say.
pub open spec fn keyboard_views(keyboards: Seq<Keyboard>) -> Seq<KeyboardV> {
    keyboards.map_values(|k: Keyboard| k@)
}

impl View for State {
    type V = WindowV;

    open spec fn view(&self) -> WindowV {
        WindowV {
            queue: self.backend_events_queue@,
            next_input_id: self.next_input_id,
            keyboards: keyboard_views(self.keyboards@),
            pointers: self.pointers@,
            throttled: self.throttled,
            mapped: self.mapped,
            width: self.width,
            height: self.height,
        }
    }
}

/// A list without the element at a place; the last one takes its place.
pub open spec fn swap_removed<T>(s: Seq<T>, i: int) -> Seq<T> {
    if i == s.len() - 1 {
        s.drop_last()
    } else {
        s.update(i, s.last()).drop_last()
    }
}

/// The place of the first occurrence of a key, or the number of keys.
pub open spec fn first_key(keys: Seq<u32>, key: u32) -> int
    decreases keys.len(),
{
    if keys.len() == 0 {
        0
    } else if keys[0] == key {
        0
    } else {
        1 + first_key(keys.skip(1), key)
    }
}

/// Keys without all occurrences of one.
pub open spec fn keys_without(keys: Seq<u32>, key: u32) -> Seq<u32>
    decreases keys.len(),
{
    if keys.len() == 0 {
        Seq::empty()
    } else {
        let before = keys_without(keys.drop_last(), key);
        if keys.last() == key {
            before
        } else {
            before.push(keys.last())
        }
    }
}

/// The keys that a list of bytes names, four bytes each. Bytes that are left over name none.
pub open spec fn keys_of_bytes(order: ByteOrder, bytes: Seq<u8>) -> Seq<u32> {
    Seq::new(bytes.len() / 4, |i: int| u32_at(order, bytes, 4 * i) as u32)
}

impl KeyboardV {
    /// Whether the release of a key belongs to a press that the window did not get.
    pub open spec fn release_unheard(self, key: u32) -> bool {
        first_key(self.entered_with_keys, key) < self.entered_with_keys.len()
    }

    /// The keyboard after a key went down or up.
    pub open spec fn key_changed(self, key: u32, state: PressState) -> KeyboardV {
        match state {
            PressState::Pressed => KeyboardV { pressed_keys: self.pressed_keys.push(key), ..self },
            PressState::Released => if self.release_unheard(key) {
                KeyboardV {
                    entered_with_keys: swap_removed(self.entered_with_keys, first_key(self.entered_with_keys, key)),
                    ..self
                }
            } else {
                KeyboardV { pressed_keys: keys_without(self.pressed_keys, key), ..self }
            },
        }
    }

    /// The event that a key leads to.
    pub open spec fn key_event(self, time: InputTimestamp, key: u32, state: PressState) -> Option<BackendEvent> {
        match state {
            PressState::Pressed => Some(BackendEvent::KeyPressed(self.id, time, key)),
            PressState::Released => if self.release_unheard(key) {
                None
            } else {
                Some(BackendEvent::KeyReleased(self.id, time, key))
            },
        }
    }
}

proof fn lemma_first_key(keys: Seq<u32>, key: u32, i: int)
    requires
        0 <= i <= keys.len(),
        i < keys.len() ==> keys[i] == key,
        forall|j: int| 0 <= j < i ==> keys[j] != key,
    ensures
        first_key(keys, key) == i,
    decreases keys.len(),
{
    if keys.len() > 0 && i > 0 {
        assert forall|j: int| 0 <= j < i - 1 implies keys.skip(1)[j] != key by {
            assert(keys[j + 1] != key);
        }
        lemma_first_key(keys.skip(1), key, i - 1);
    }
}

/// The place of the first occurrence of a key.
fn position(keys: &Vec<u32>, key: u32) -> (r: usize)
    ensures
        r == first_key(keys@, key),
        r <= keys@.len(),
{
    let mut i: usize = 0;
    while i < keys.len()
        invariant
            i <= keys.len(),
            forall|j: int| 0 <= j < i ==> keys@[j] != key,
        decreases keys.len() - i,
    {
        if keys[i] == key {
            proof {
                lemma_first_key(keys@, key, i as int);
            }
            return i;
        }
        i = i + 1;
    }
    proof {
        lemma_first_key(keys@, key, i as int);
    }
    i
}

impl Keyboard {
    /// Notes the keys that are held down when the window gets the focus.
    pub fn enter(&mut self, order: ByteOrder, keys: &[u8])
        ensures
            final(self)@ == (KeyboardV { entered_with_keys: keys_of_bytes(order, keys@), ..old(self)@ }),
    {
        let n: usize = keys.len() / 4;
        let mut held: Vec<u32> = Vec::new();
        let mut i: usize = 0;
        while i < n
            invariant
                i <= n,
                n == keys@.len() / 4,
                keys@.len() <= usize::MAX,
                held@ == keys_of_bytes(order, keys@).take(i as int),
            decreases n - i,
        {
            held.push(read_u32(order, keys, 4 * i));
            assert(held@ =~= keys_of_bytes(order, keys@).take(i + 1));
            i = i + 1;
        }
        assert(held@ =~= keys_of_bytes(order, keys@));
        self.entered_with_keys = held;
    }

    /// Notes that a key went down or up. Says which event that leads to.
    pub fn key(&mut self, time: InputTimestamp, key: u32, state: PressState) -> (r: Option<BackendEvent>)
        ensures
            final(self)@ == old(self)@.key_changed(key, state),
            r == old(self)@.key_event(time, key, state),
    {
        match state {
            PressState::Pressed => {
                self.pressed_keys.push(key);
                Some(BackendEvent::KeyPressed(self.id, time, key))
            },
            PressState::Released => {
                let i = position(&self.entered_with_keys, key);
                if i < self.entered_with_keys.len() {
                    let ghost before = self.entered_with_keys@;
                    self.entered_with_keys.swap_remove(i);
                    assert(self.entered_with_keys@ =~= swap_removed(before, i as int));
                    None
                } else {
                    let mut kept: Vec<u32> = Vec::new();
                    let mut k: usize = 0;
                    let ghost pressed = self.pressed_keys@;
                    assert(pressed.take(0) =~= Seq::<u32>::empty());
                    while k < self.pressed_keys.len()
                        invariant
                            k <= self.pressed_keys.len(),
                            pressed == self.pressed_keys@,
                            kept@ == keys_without(pressed.take(k as int), key),
                        decreases self.pressed_keys.len() - k,
                    {
                        assert(pressed.take(k + 1).drop_last() =~= pressed.take(k as int));
                        if self.pressed_keys[k] != key {
                            kept.push(self.pressed_keys[k]);
                        }
                        k = k + 1;
                    }
                    assert(pressed.take(k as int) =~= pressed);
                    self.pressed_keys = kept;
                    Some(BackendEvent::KeyReleased(self.id, time, key))
                }
            },
        }
    }
}

/// Whether keyboard `i` is the first one of a seat.
pub open spec fn is_keyboard_of(keyboards: Seq<KeyboardV>, i: int, seat: u32) -> bool {
    &&& 0 <= i < keyboards.len()
    &&& keyboards[i].seat == seat
    &&& forall|j: int| 0 <= j < i ==> (#[trigger] keyboards[j]).seat != seat
}

/// Whether pointer `i` is the first one of a seat.
pub open spec fn is_pointer_of(pointers: Seq<Pointer>, i: int, seat: u32) -> bool {
    &&& 0 <= i < pointers.len()
    &&& pointers[i].seat == seat
    &&& forall|j: int| 0 <= j < i ==> (#[trigger] pointers[j]).seat != seat
}

impl WindowV {
    /// The state with one more event that waits.
    pub open spec fn with_event(self, event: BackendEvent) -> WindowV {
        WindowV { queue: self.queue.push(event), ..self }
    }

    /// The state with one more keyboard.
    pub open spec fn keyboard_added(self, wl: u32, seat: u32) -> WindowV {
        let id = KeyboardId(self.next_input_id);
        WindowV {
            next_input_id: (self.next_input_id + 1) as u64,
            keyboards: self.keyboards.push(
                KeyboardV { id, wl, seat, pressed_keys: Seq::empty(), entered_with_keys: Seq::empty() },
            ),
            ..self
        }.with_event(BackendEvent::NewKeyboard(id))
    }

    /// The state with one more pointer.
    pub open spec fn pointer_added(self, wl: u32, seat: u32) -> WindowV {
        let id = PointerId(self.next_input_id);
        WindowV {
            next_input_id: (self.next_input_id + 1) as u64,
            pointers: self.pointers.push(Pointer { id, wl, seat }),
            ..self
        }.with_event(BackendEvent::NewPointer(id))
    }

    /// The state after the window was asked to be of a size. Zero leaves a length as it is.
    pub open spec fn resized(self, width: i32, height: i32) -> WindowV {
        WindowV {
            width: if width != 0 {
                width as u32
            } else {
                self.width
            },
            height: if height != 0 {
                height as u32
            } else {
                self.height
            },
            ..self
        }
    }
}

/// What a pointer of the other compositor reports.
#[derive(Debug, Clone, Copy, PartialEq, Eq, Structural)]
pub enum PointerReport {
    Motion { time: InputTimestamp, x: Fixed, y: Fixed },
    Button { time: InputTimestamp, btn: u32, state: PressState },
    /// A turn of the wheel.
    Axis { time: InputTimestamp, vertical: bool, value: Fixed },
    Other,
}

/// The event that a report of a pointer leads to.
pub open spec fn report_event(id: PointerId, report: PointerReport) -> Option<BackendEvent> {
    match report {
        PointerReport::Motion { time, x, y } => Some(BackendEvent::PointerMotionAbsolute(id, time, x, y)),
        PointerReport::Button { time, btn, state: PressState::Released } => Some(
            BackendEvent::PointerBtnRelease(id, time, btn),
        ),
        PointerReport::Button { time, btn, state: PressState::Pressed } => Some(
            BackendEvent::PointerBtnPress(id, time, btn),
        ),
        PointerReport::Axis { time, vertical: true, value } => Some(BackendEvent::PointerAxisVertial(id, time, value)),
        _ => None,
    }
}

impl State {
    /// A window that is not shown yet.
    pub fn new() -> (r: Self)
        ensures
            r@ == (WindowV {
                queue: Seq::empty(),
                next_input_id: 1,
                keyboards: Seq::empty(),
                pointers: Seq::empty(),
                throttled: false,
                mapped: false,
                width: 80,
                height: 60,
            }),
    {
        let r = Self {
            backend_events_queue: VecDeque::new(),
            next_input_id: 1,
            keyboards: Vec::new(),
            pointers: Vec::new(),
            throttled: false,
            mapped: false,
            width: 80,
            height: 60,
        };
        assert(r@.queue =~= Seq::<BackendEvent>::empty());
        assert(r@.keyboards =~= Seq::<KeyboardV>::empty());
        r
    }

    /// Takes the event that waits longest.
    pub fn next_event(&mut self) -> (r: Option<BackendEvent>)
        ensures
            old(self)@.queue.len() == 0 ==> r is None && final(self)@ == old(self)@,
            old(self)@.queue.len() > 0 ==> {
                &&& r == Some(old(self)@.queue[0])
                &&& final(self)@ == (WindowV { queue: old(self)@.queue.drop_first(), ..old(self)@ })
            },
    {
        let ghost q = self@.queue;
        let r = self.backend_events_queue.pop_front();
        assert(q.len() > 0 ==> self@.queue =~= q.drop_first());
        r
    }

    /// Adds a keyboard.
    pub fn keyboard_added(&mut self, wl: u32, seat: u32)
        requires
            old(self)@.next_input_id < u64::MAX,
        ensures
            final(self)@ == old(self)@.keyboard_added(wl, seat),
    {
        let ghost w = self@;
        let id = KeyboardId(next_id(&mut self.next_input_id));
        let k = Keyboard { id, wl, seat, pressed_keys: Vec::new(), entered_with_keys: Vec::new() };
        assert(k@.pressed_keys =~= Seq::<u32>::empty() && k@.entered_with_keys =~= Seq::<u32>::empty());
        let ghost kv = k@;
        self.keyboards.push(k);
        assert(keyboard_views(self.keyboards@) =~= w.keyboards.push(kv));
        self.backend_events_queue.push_back(BackendEvent::NewKeyboard(id));
    }

    /// Removes the first keyboard of a seat. Gives its object.
    pub fn keyboard_removed(&mut self, seat: u32) -> (wl: u32)
        requires
            exists|i: int| is_keyboard_of(old(self)@.keyboards, i, seat),
        ensures
            exists|i: int| #[trigger]
                is_keyboard_of(old(self)@.keyboards, i, seat) && wl == old(self)@.keyboards[i].wl && final(self)@
                    == (WindowV { keyboards: swap_removed(old(self)@.keyboards, i), ..old(self)@ }).with_event(
                    BackendEvent::KeyboardRemoved(old(self)@.keyboards[i].id),
                ),
    {
        let ghost w = self@;
        let ghost at = choose|i: int| is_keyboard_of(w.keyboards, i, seat);
        assert(is_keyboard_of(w.keyboards, at, seat));
        let mut i: usize = 0;
        assert(w.keyboards[0] == self.keyboards@[0]@);
        while self.keyboards[i].seat != seat
            invariant
                i < self.keyboards.len(),
                self@ == w,
                is_keyboard_of(w.keyboards, at, seat),
                i <= at,
                forall|j: int| 0 <= j < i ==> (#[trigger] w.keyboards[j]).seat != seat,
            decreases self.keyboards.len() - i,
        {
            assert(w.keyboards[i as int] == self.keyboards@[i as int]@);
            assert(i < at);
            i = i + 1;
        }
        assert(w.keyboards[i as int] == self.keyboards@[i as int]@);
        assert(is_keyboard_of(w.keyboards, i as int, seat));
        let ghost before = self.keyboards@;
        let kbd = self.keyboards.swap_remove(i);
        assert(keyboard_views(self.keyboards@) =~= swap_removed(w.keyboards, i as int));
        self.backend_events_queue.push_back(BackendEvent::KeyboardRemoved(kbd.id));
        kbd.wl
    }

    /// Adds a pointer.
    pub fn pointer_added(&mut self, wl: u32, seat: u32)
        requires
            old(self)@.next_input_id < u64::MAX,
        ensures
            final(self)@ == old(self)@.pointer_added(wl, seat),
    {
        let id = PointerId(next_id(&mut self.next_input_id));
        self.pointers.push(Pointer { id, wl, seat });
        self.backend_events_queue.push_back(BackendEvent::NewPointer(id));
    }

    /// Removes the first pointer of a seat. Gives its object.
    pub fn pointer_removed(&mut self, seat: u32) -> (wl: u32)
        requires
            exists|i: int| is_pointer_of(old(self)@.pointers, i, seat),
        ensures
            exists|i: int| #[trigger]
                is_pointer_of(old(self)@.pointers, i, seat) && wl == old(self)@.pointers[i].wl && final(self)@
                    == (WindowV { pointers: swap_removed(old(self)@.pointers, i), ..old(self)@ }).with_event(
                    BackendEvent::PointerRemoved(old(self)@.pointers[i].id),
                ),
    {
        let ghost w = self@;
        let ghost at = choose|i: int| is_pointer_of(w.pointers, i, seat);
        assert(is_pointer_of(w.pointers, at, seat));
        let mut i: usize = 0;
        while self.pointers[i].seat != seat
            invariant
                i < self.pointers.len(),
                self@ == w,
                is_pointer_of(w.pointers, at, seat),
                i <= at,
                forall|j: int| 0 <= j < i ==> (#[trigger] w.pointers[j]).seat != seat,
            decreases self.pointers.len() - i,
        {
            assert(i < at);
            i = i + 1;
        }
        assert(is_pointer_of(w.pointers, i as int, seat));
        let ptr = self.pointers.swap_remove(i);
        assert(self.pointers@ =~= swap_removed(w.pointers, i as int));
        self.backend_events_queue.push_back(BackendEvent::PointerRemoved(ptr.id));
        ptr.wl
    }

    /// Handles a report of the pointer with a number.
    pub fn pointer_report(&mut self, id: PointerId, report: PointerReport)
        ensures
            final(self)@ == (match report_event(id, report) {
                Some(event) => old(self)@.with_event(event),
                None => old(self)@,
            }),
    {
        let event = match report {
            PointerReport::Motion { time, x, y } => BackendEvent::PointerMotionAbsolute(id, time, x, y),
            PointerReport::Button { time, btn, state } => match state {
                PressState::Released => BackendEvent::PointerBtnRelease(id, time, btn),
                PressState::Pressed => BackendEvent::PointerBtnPress(id, time, btn),
            },
            PointerReport::Axis { time, vertical, value } => {
                if !vertical {
                    return ;
                }
                BackendEvent::PointerAxisVertial(id, time, value)
            },
            PointerReport::Other => {
                return ;
            },
        };
        self.backend_events_queue.push_back(event);
    }

    /// Handles a key of the keyboard at a place.
    pub fn keyboard_key(&mut self, i: usize, time: InputTimestamp, key: u32, state: PressState)
        requires
            i < old(self)@.keyboards.len(),
        ensures
            ({
                let k = old(self)@.keyboards[i as int];
                let w = WindowV {
                    keyboards: old(self)@.keyboards.update(i as int, k.key_changed(key, state)),
                    ..old(self)@
                };
                final(self)@ == (match k.key_event(time, key, state) {
                    Some(event) => w.with_event(event),
                    None => w,
                })
            }),
    {
        let ghost w = self@;
        assert(w.keyboards[i as int] == self.keyboards@[i as int]@);
        let event = self.keyboards[i].key(time, key, state);
        assert(keyboard_views(self.keyboards@) =~= w.keyboards.update(
            i as int,
            w.keyboards[i as int].key_changed(key, state),
        ));
        if let Some(event) = event {
            self.backend_events_queue.push_back(event);
        }
    }

    /// Notes the keys that are held down when a keyboard gets onto the window.
    pub fn keyboard_enter(&mut self, i: usize, order: ByteOrder, keys: &[u8])
        requires
            i < old(self)@.keyboards.len(),
        ensures
            final(self)@ == (WindowV {
                keyboards: old(self)@.keyboards.update(
                    i as int,
                    KeyboardV {
                        entered_with_keys: keys_of_bytes(order, keys@),
                        ..old(self)@.keyboards[i as int]
                    },
                ),
                ..old(self)@
            }),
    {
        let ghost w = self@;
        assert(w.keyboards[i as int] == self.keyboards@[i as int]@);
        self.keyboards[i].enter(order, keys);
        assert(keyboard_views(self.keyboards@) =~= w.keyboards.update(
            i as int,
            KeyboardV { entered_with_keys: keys_of_bytes(order, keys@), ..w.keyboards[i as int] },
        ));
    }

    /// Notes that the window may be shown. The first time, a frame is due.
    pub fn surface_configured(&mut self)
        ensures
            final(self)@ == (if old(self)@.mapped {
                old(self)@
            } else {
                (WindowV { mapped: true, ..old(self)@ }).with_event(BackendEvent::Frame)
            }),
    {
        if !self.mapped {
            self.mapped = true;
            self.backend_events_queue.push_back(BackendEvent::Frame);
        }
    }

    /// Notes the size that the window is asked to have.
    pub fn toplevel_configured(&mut self, width: i32, height: i32)
        requires
            width >= 0,
            height >= 0,
        ensures
            final(self)@ == old(self)@.resized(width, height),
    {
        if width != 0 {
            self.width = width as u32;
        }
        if height != 0 {
            self.height = height as u32;
        }
    }

    /// Notes that the window was closed.
    pub fn toplevel_closed(&mut self)
        ensures
            final(self)@ == old(self)@.with_event(BackendEvent::ShutDown),
    {
        self.backend_events_queue.push_back(BackendEvent::ShutDown);
    }

    /// Starts a frame. The next one has to wait until this one was shown.
    pub fn begin_frame(&mut self)
        requires
            old(self)@.mapped,
            !old(self)@.throttled,
        ensures
            final(self)@ == (WindowV { throttled: true, ..old(self)@ }),
    {
        self.throttled = true;
    }

    /// Notes that a frame was shown.
    pub fn frame_shown(&mut self)
        requires
            old(self)@.throttled,
        ensures
            final(self)@ == (WindowV { throttled: false, ..old(self)@ }).with_event(BackendEvent::Frame),
    {
        self.throttled = false;
        self.backend_events_queue.push_back(BackendEvent::Frame);
    }
}

/// How many of the events that wait are due frames.
pub open spec fn frames_due(queue: Seq<BackendEvent>) -> nat
    decreases queue.len(),
{
    if queue.len() == 0 {
        0
    } else {
        frames_due(queue.drop_last()) + if queue.last() is Frame {
            1nat
        } else {
            0nat
        }
    }
}

/// Whether a frame is due or was started: from the moment when the window may be shown there is at
/// most one of them.
pub open spec fn window_wf(w: WindowV) -> bool {
    frames_due(w.queue) + (if w.throttled {
        1nat
    } else {
        0nat
    }) <= if w.mapped {
        1nat
    } else {
        0nat
    }
}

proof fn lemma_first_frame(queue: Seq<BackendEvent>)
    requires
        queue.len() > 0,
    ensures
        frames_due(queue) == frames_due(queue.drop_first()) + if queue[0] is Frame {
            1nat
        } else {
            0nat
        },
    decreases queue.len(),
{
    if queue.len() == 1 {
        assert(queue.drop_last() =~= queue.drop_first());
    } else {
        lemma_first_frame(queue.drop_last());
        assert(queue.drop_last().drop_first() =~= queue.drop_first().drop_last());
    }
}

/// A frame is never due twice: handling the events in order, every frame that is started finds none
/// that was started before it and not shown.
pub proof fn law_one_frame_at_a_time(w: WindowV)
    requires
        window_wf(w),
    ensures
        w.queue.len() > 0 ==> {
            let taken = WindowV { queue: w.queue.drop_first(), ..w };
            &&& window_wf(taken)
            &&& (w.queue[0] is Frame ==> w.mapped && !w.throttled && window_wf(WindowV { throttled: true, ..taken }))
        },
        w.throttled ==> window_wf((WindowV { throttled: false, ..w }).with_event(BackendEvent::Frame)),
        !w.mapped ==> window_wf((WindowV { mapped: true, ..w }).with_event(BackendEvent::Frame)),
{
    if w.queue.len() > 0 {
        lemma_first_frame(w.queue);
    }
    assert(w.queue.push(BackendEvent::Frame).drop_last() =~= w.queue);
}

/// What buffer a frame is drawn to.
#[derive(Debug, Clone, Copy, PartialEq, Eq, Structural)]
pub enum BufferChoice {
    /// A buffer that is there.
    Reuse(usize),
    /// A new one.
    Allocate,
    /// None: the frame is skipped.
    Skip,
}

/// The first buffer that is not in use, or a new one if there are less than two.
pub open spec fn buffer_choice(bufs: Seq<GlBuf>) -> BufferChoice {
    if bufs.len() >= 1 && !bufs[0].in_use {
        BufferChoice::Reuse(0)
    } else if bufs.len() >= 2 && !bufs[1].in_use {
        BufferChoice::Reuse(1)
    } else if bufs.len() < 2 {
        BufferChoice::Allocate
    } else {
        BufferChoice::Skip
    }
}

impl GlSwapchain {
    /// No buffers yet.
    pub fn new(width: u32, height: u32) -> (r: Self)
        ensures
            r@ == (GlSwapchainV { width, height, bufs: Seq::empty() }),
    {
        Self { width, height, bufs: Vec::new() }
    }

    /// Whether the buffers are of a size.
    pub fn fits(&self, width: u32, height: u32) -> (r: bool)
        ensures
            r == (self@.width == width && self@.height == height),
    {
        self.width == width && self.height == height
    }

    /// Which buffer the next frame is drawn to.
    pub fn next_buffer(&self) -> (r: BufferChoice)
        requires
            self@.bufs.len() <= 2,
        ensures
            r == buffer_choice(self@.bufs),
    {
        let n: usize = self.bufs.len();
        if n >= 1 && !self.bufs[0].in_use {
            BufferChoice::Reuse(0)
        } else if n >= 2 && !self.bufs[1].in_use {
            BufferChoice::Reuse(1)
        } else if n < 2 {
            BufferChoice::Allocate
        } else {
            BufferChoice::Skip
        }
    }

    /// Adds a buffer and shows it.
    pub fn show_new(&mut self, wl: u32)
        requires
            buffer_choice(old(self)@.bufs) is Allocate,
        ensures
            final(self)@ == (GlSwapchainV { bufs: old(self)@.bufs.push(GlBuf { wl, in_use: true }), ..old(self)@ }),
            final(self)@.bufs.len() <= 2,
    {
        self.bufs.push(GlBuf { wl, in_use: true });
    }

    /// Shows a buffer that is there.
    pub fn show(&mut self, i: usize)
        requires
            buffer_choice(old(self)@.bufs) == BufferChoice::Reuse(i),
        ensures
            final(self)@ == (GlSwapchainV {
                bufs: old(self)@.bufs.update(i as int, GlBuf { in_use: true, ..old(self)@.bufs[i as int] }),
                ..old(self)@
            }),
    {
        let buf = self.bufs[i];
        self.bufs.set(i, GlBuf { in_use: true, ..buf });
    }

    /// Notes that the other compositor no longer shows a buffer. One that is not known is ignored.
    pub fn released(&mut self, wl: u32)
        ensures
            final(self)@.width == old(self)@.width,
            final(self)@.height == old(self)@.height,
            final(self)@.bufs.len() == old(self)@.bufs.len(),
            forall|i: int| #![trigger final(self)@.bufs[i]]
                0 <= i < old(self)@.bufs.len() ==> final(self)@.bufs[i] == (if old(self)@.bufs[i].wl == wl && (forall|
                    j: int,
                | 0 <= j < i ==> (#[trigger] old(self)@.bufs[j]).wl != wl) {
                    GlBuf { in_use: false, ..old(self)@.bufs[i] }
                } else {
                    old(self)@.bufs[i]
                }),
    {
        let ghost b = self@.bufs;
        let mut i: usize = 0;
        while i < self.bufs.len()
            invariant
                i <= self.bufs.len(),
                self@ == old(self)@,
                b == self@.bufs,
                forall|j: int| 0 <= j < i ==> (#[trigger] b[j]).wl != wl,
            decreases self.bufs.len() - i,
        {
            let buf = self.bufs[i];
            if buf.wl == wl {
                self.bufs.set(i, GlBuf { in_use: false, ..buf });
                assert(b[i as int].wl == wl);
                return ;
            }
            i = i + 1;
        }
    }
}

/// A frame is never drawn to a buffer that the other compositor shows.
pub proof fn law_drawn_buffer_is_free(bufs: Seq<GlBuf>)
    ensures
        buffer_choice(bufs) matches BufferChoice::Reuse(i) ==> i < bufs.len() && !bufs[i as int].in_use,
        buffer_choice(bufs) is Skip ==> bufs.len() >= 2,
{
}

/// A press is always reported, and the key counts as held. A release is reported, and the key no longer counts as held,
/// unless the key was held when the window got the keyboard: then that press is forgotten, and nothing else changes.
pub proof fn law_keys_are_reported(k: KeyboardV, time: InputTimestamp, key: u32)
    ensures
        ({
            let down = k.key_changed(key, PressState::Pressed);
            let up = k.key_changed(key, PressState::Released);
            let before = k.entered_with_keys.contains(key);
            &&& k.key_event(time, key, PressState::Pressed) == Some(BackendEvent::KeyPressed(k.id, time, key))
            &&& down.pressed_keys.contains(key)
            &&& down.entered_with_keys == k.entered_with_keys
            &&& k.key_event(time, key, PressState::Released) == if before {
                None
            } else {
                Some(BackendEvent::KeyReleased(k.id, time, key))
            }
            &&& !before ==> up.pressed_keys == k.pressed_keys.filter(|other: u32| other != key) && up.entered_with_keys
                == k.entered_with_keys
            &&& before ==> up.pressed_keys == k.pressed_keys && up.entered_with_keys.to_multiset()
                == k.entered_with_keys.to_multiset().remove(key)
            &&& down.id == k.id && up.id == k.id && down.seat == k.seat && up.seat == k.seat
        }),
{
    law_keys_without(k.pressed_keys, key);
    let keys = k.entered_with_keys;
    let down = k.key_changed(key, PressState::Pressed);
    assert(down.pressed_keys[k.pressed_keys.len() as int] == key);
    if keys.contains(key) {
        let i = lemma_first_of(keys, key);
        lemma_first_key(keys, key, i);
        lemma_swap_removed(keys, i);
    } else {
        lemma_first_key(keys, key, keys.len() as int);
    }
}

proof fn lemma_first_of(keys: Seq<u32>, key: u32) -> (i: int)
    requires
        keys.contains(key),
    ensures
        0 <= i < keys.len(),
        keys[i] == key,
        forall|j: int| 0 <= j < i ==> keys[j] != key,
    decreases keys.len(),
{
    let rest = keys.drop_last();
    if rest.contains(key) {
        let i = lemma_first_of(rest, key);
        assert forall|j: int| 0 <= j < i implies keys[j] != key by {
            assert(rest[j] == keys[j]);
        }
        i
    } else {
        assert forall|j: int| 0 <= j < keys.len() - 1 implies keys[j] != key by {
            assert(rest[j] == keys[j]);
        }
        keys.len() - 1
    }
}

proof fn lemma_swap_removed(keys: Seq<u32>, i: int)
    requires
        0 <= i < keys.len(),
    ensures
        swap_removed(keys, i).to_multiset() == keys.to_multiset().remove(keys[i]),
{
    broadcast use vstd::seq_lib::group_to_multiset_ensures;

    let rest = keys.drop_last();
    let last = keys.last();
    assert(keys =~= rest.push(last));
    if i == keys.len() - 1 {
        assert(swap_removed(keys, i) =~= rest);
        assert(rest.push(last).to_multiset() =~= rest.to_multiset().insert(last));
        assert(keys.to_multiset().remove(last) =~= rest.to_multiset());
    } else {
        let after = rest.update(i, last);
        assert(swap_removed(keys, i) =~= after);
        vstd::seq_lib::to_multiset_update(rest, i, last);
        assert(rest.push(last).to_multiset() =~= rest.to_multiset().insert(last));
        assert(rest.contains(rest[i]));
        assert(keys.to_multiset().remove(keys[i]) =~= after.to_multiset());
    }
}

/// The keys that are held when one is released are all others, in the order in which they were pressed.
pub proof fn law_keys_without(keys: Seq<u32>, key: u32)
    ensures
        keys_without(keys, key) == keys.filter(|other: u32| other != key),
    decreases keys.len(),
{
    reveal(Seq::filter);
    if keys.len() > 0 {
        law_keys_without(keys.drop_last(), key);
    }
}

/// What a pointer reports is passed on as it was reported: presses as presses, releases as releases, and turns of the
/// wheel on the vertical axis only.
pub proof fn law_reports_are_passed_on(id: PointerId, time: InputTimestamp, btn: u32, x: Fixed, y: Fixed)
    ensures
        report_event(id, PointerReport::Motion { time, x, y }) == Some(
            BackendEvent::PointerMotionAbsolute(id, time, x, y),
        ),
        report_event(id, PointerReport::Button { time, btn, state: PressState::Pressed }) == Some(
            BackendEvent::PointerBtnPress(id, time, btn),
        ),
        report_event(id, PointerReport::Button { time, btn, state: PressState::Released }) == Some(
            BackendEvent::PointerBtnRelease(id, time, btn),
        ),
        report_event(id, PointerReport::Axis { time, vertical: true, value: x }) == Some(
            BackendEvent::PointerAxisVertial(id, time, x),
        ),
        report_event(id, PointerReport::Axis { time, vertical: false, value: x }) is None,
{
}

/// A frame is drawn to a buffer that is free if there is one. Else a new one is made, unless there are two already,
/// and then the frame is left out.
pub proof fn law_free_buffer_is_used(bufs: Seq<GlBuf>)
    requires
        bufs.len() <= 2,
    ensures
        match buffer_choice(bufs) {
            BufferChoice::Reuse(i) => i < bufs.len() && !bufs[i as int].in_use,
            BufferChoice::Allocate => bufs.len() < 2 && forall|i: int|
                0 <= i < bufs.len() ==> (#[trigger] bufs[i]).in_use,
            BufferChoice::Skip => bufs.len() == 2 && bufs[0].in_use && bufs[1].in_use,
        },
{
}

} // verus!
