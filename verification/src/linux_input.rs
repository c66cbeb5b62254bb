//! Linux input: turning evdev events of the grabbed mouse and keyboard into
//! portable events, choosing the devices to grab, and turning portable
//! events back into the uinput events that replay them. The device files
//! themselves are the caller's part; here events are plain numbers.

use vstd::prelude::*;
use crate::input::{InputEvent, KeyCode, KeyState, MouseButton};
use crate::monitor::Monitor;
use crate::text::{contains, to_chars, contains_chars};
use crate::server::{saturate_i32, trunc_div};

verus! {

/// Event types of the Linux input layer.
pub const EV_SYN: u16 = 0x00;
pub const EV_KEY: u16 = 0x01;
pub const EV_REL: u16 = 0x02;
pub const EV_ABS: u16 = 0x03;

/// Relative axes.
pub const REL_X: u16 = 0x00;
pub const REL_Y: u16 = 0x01;
pub const REL_HWHEEL: u16 = 0x06;
pub const REL_WHEEL: u16 = 0x08;

/// Absolute axes.
pub const ABS_X: u16 = 0x00;
pub const ABS_Y: u16 = 0x01;

/// Synchronisation.
pub const SYN_REPORT: u16 = 0x00;

/// Mouse buttons.
pub const BTN_LEFT: u16 = 0x110;
pub const BTN_RIGHT: u16 = 0x111;
pub const BTN_MIDDLE: u16 = 0x112;
pub const BTN_SIDE: u16 = 0x113;
pub const BTN_EXTRA: u16 = 0x114;

/// The upper end of the absolute axes of the virtual device.
pub const ABS_RANGE: i32 = 32767;

/// A raw input event: type, code and value.
#[derive(Debug, Clone, Copy, PartialEq, Eq, Structural)]
pub struct RawEvent {
    pub kind: u16,
    pub code: u16,
    pub value: i32,
}

/// The capture's cursor bookkeeping: the cursor position, kept within the
/// screen for relative motion.
#[derive(Debug, Clone, Copy, PartialEq, Eq, Structural)]
pub struct CaptureState {
    pub grabbed: bool,
    pub cursor_x: i32,
    pub cursor_y: i32,
    pub screen_width: i32,
    pub screen_height: i32,
}

/// The button an evdev key code stands for.
pub open spec fn spec_button_of(code: u16) -> Option<MouseButton> {
    if code == BTN_LEFT {
        Some(MouseButton::Left)
    } else if code == BTN_RIGHT {
        Some(MouseButton::Right)
    } else if code == BTN_MIDDLE {
        Some(MouseButton::Middle)
    } else if code == BTN_SIDE {
        Some(MouseButton::Extra1)
    } else if code == BTN_EXTRA {
        Some(MouseButton::Extra2)
    } else {
        None
    }
}

/// The evdev key code of a button.
pub open spec fn spec_button_code(b: MouseButton) -> u16 {
    match b {
        MouseButton::Left => BTN_LEFT,
        MouseButton::Right => BTN_RIGHT,
        MouseButton::Middle => BTN_MIDDLE,
        MouseButton::Extra1 => BTN_SIDE,
        MouseButton::Extra2 => BTN_EXTRA,
    }
}

/// The button an evdev key code stands for.
pub fn evdev_key_to_mouse_button(code: u16) -> (b: Option<MouseButton>)
    ensures
        b == spec_button_of(code),
{
    if code == BTN_LEFT {
        Some(MouseButton::Left)
    } else if code == BTN_RIGHT {
        Some(MouseButton::Right)
    } else if code == BTN_MIDDLE {
        Some(MouseButton::Middle)
    } else if code == BTN_SIDE {
        Some(MouseButton::Extra1)
    } else if code == BTN_EXTRA {
        Some(MouseButton::Extra2)
    } else {
        None
    }
}

/// The evdev key code of a button.
pub fn mouse_button_code(b: MouseButton) -> (code: u16)
    ensures
        code == spec_button_code(b),
{
    match b {
        MouseButton::Left => BTN_LEFT,
        MouseButton::Right => BTN_RIGHT,
        MouseButton::Middle => BTN_MIDDLE,
        MouseButton::Extra1 => BTN_SIDE,
        MouseButton::Extra2 => BTN_EXTRA,
    }
}

/// Whether a mouse event turns into a portable event.
pub open spec fn mouse_event_maps(e: RawEvent) -> bool {
    ||| e.kind == EV_REL && (e.code == REL_X || e.code == REL_Y || e.code == REL_WHEEL || e.code == REL_HWHEEL)
    ||| e.kind == EV_KEY && spec_button_of(e.code) is Some
    ||| e.kind == EV_ABS && (e.code == ABS_X || e.code == ABS_Y)
}

/// The index of the first mouse event at or after `start` that turns into a
/// portable event.
pub open spec fn first_mouse_from(es: Seq<RawEvent>, start: int) -> Option<int>
    decreases es.len() - start,
{
    if start < 0 || start >= es.len() {
        None
    } else if mouse_event_maps(es[start]) {
        Some(start)
    } else {
        first_mouse_from(es, start + 1)
    }
}

/// Whether a keyboard event turns into a portable event: a key with value
/// 0 (release), 1 (press) or 2 (repeat, taken as a press).
pub open spec fn key_event_maps(e: RawEvent) -> bool {
    e.kind == EV_KEY && 0 <= e.value <= 2
}

/// The index of the first keyboard event at or after `start` that turns
/// into a portable event.
pub open spec fn first_key_from(es: Seq<RawEvent>, start: int) -> Option<int>
    decreases es.len() - start,
{
    if start < 0 || start >= es.len() {
        None
    } else if key_event_maps(es[start]) {
        Some(start)
    } else {
        first_key_from(es, start + 1)
    }
}

/// No usable event of a batch is passed over: reading from `start` gives
/// the first mouse (keyboard) event at or after `start` that turns into a
/// portable event, every event between `start` and it turns into none, and
/// when nothing is found no event from `start` to the end of the batch turns
/// into one.
pub proof fn law_no_usable_event_skipped(es: Seq<RawEvent>, start: int)
    requires
        0 <= start,
    ensures
        first_mouse_from(es, start) matches Some(k) ==> start <= k < es.len() && mouse_event_maps(es[k])
            && forall|j: int| start <= j < k ==> !mouse_event_maps(#[trigger] es[j]),
        first_mouse_from(es, start) is None ==> forall|j: int|
            start <= j < es.len() ==> !mouse_event_maps(#[trigger] es[j]),
        first_key_from(es, start) matches Some(k) ==> start <= k < es.len() && key_event_maps(es[k])
            && forall|j: int| start <= j < k ==> !key_event_maps(#[trigger] es[j]),
        first_key_from(es, start) is None ==> forall|j: int|
            start <= j < es.len() ==> !key_event_maps(#[trigger] es[j]),
    decreases es.len() - start,
{
    if start < es.len() {
        law_no_usable_event_skipped(es, start + 1);
    }
}

/// `v` limited to `[lo, hi]`.
pub open spec fn clamp_int(v: int, lo: int, hi: int) -> int {
    if v < lo { lo } else if v > hi { hi } else { v }
}

/// The portable event of a mouse event, and the capture state after it.
pub open spec fn mouse_outcome(st: CaptureState, e: RawEvent) -> (InputEvent, CaptureState) {
    if e.kind == EV_REL && e.code == REL_X {
        (
            InputEvent::MouseMove { dx: e.value, dy: 0 },
            CaptureState { cursor_x: clamp_int(st.cursor_x + e.value, 0, st.screen_width - 1) as i32, ..st },
        )
    } else if e.kind == EV_REL && e.code == REL_Y {
        (
            InputEvent::MouseMove { dx: 0, dy: e.value },
            CaptureState { cursor_y: clamp_int(st.cursor_y + e.value, 0, st.screen_height - 1) as i32, ..st },
        )
    } else if e.kind == EV_REL && e.code == REL_WHEEL {
        (InputEvent::MouseScroll { dx: 0, dy: e.value }, st)
    } else if e.kind == EV_REL && e.code == REL_HWHEEL {
        (InputEvent::MouseScroll { dx: e.value, dy: 0 }, st)
    } else if e.kind == EV_KEY {
        (InputEvent::MouseButton { button: spec_button_of(e.code)->0, pressed: e.value == 1 }, st)
    } else if e.code == ABS_X {
        (InputEvent::MouseAbsolute { x: e.value, y: st.cursor_y }, CaptureState { cursor_x: e.value, ..st })
    } else {
        (InputEvent::MouseAbsolute { x: st.cursor_x, y: e.value }, CaptureState { cursor_y: e.value, ..st })
    }
}

/// Reading `e` stays within `i32` and clamps to a non-empty range.
pub open spec fn mouse_event_fits(st: CaptureState, e: RawEvent) -> bool {
    &&& (e.kind == EV_REL && e.code == REL_X) ==> i32::MIN <= st.cursor_x + e.value <= i32::MAX
        && st.screen_width >= 1
    &&& (e.kind == EV_REL && e.code == REL_Y) ==> i32::MIN <= st.cursor_y + e.value <= i32::MAX
        && st.screen_height >= 1
}

impl CaptureState {
    /// The state before any grid is known: a 1920x1080 screen with the
    /// cursor in its middle, not grabbed.
    pub fn new() -> (s: Self)
        ensures
            s == (CaptureState { grabbed: false, cursor_x: 960, cursor_y: 540, screen_width: 1920, screen_height: 1080 }),
    {
        CaptureState { grabbed: false, cursor_x: 960, cursor_y: 540, screen_width: 1920, screen_height: 1080 }
    }

    /// Set the screen size the cursor is kept within.
    pub fn set_screen_size(&mut self, width: i32, height: i32)
        ensures
            *final(self) == (CaptureState { screen_width: width, screen_height: height, ..*old(self) }),
    {
        self.screen_width = width;
        self.screen_height = height;
    }

    /// Whether the first usable event of the batch from `start` on can be
    /// read without overflow.
    pub fn accepts_mouse_events(&self, events: &Vec<RawEvent>, start: usize) -> (b: bool)
        ensures
            b == (first_mouse_from(events@, start as int) matches Some(k) ==> mouse_event_fits(*self, events@[k])),
    {
        match first_mouse(events, start) {
            Some(k) => {
                let e = events[k];
                assert(e == events@[k as int]);
                if e.kind == EV_REL && e.code == REL_X {
                    let v = self.cursor_x as i64 + e.value as i64;
                    v >= i32::MIN as i64 && v <= i32::MAX as i64 && self.screen_width >= 1
                } else if e.kind == EV_REL && e.code == REL_Y {
                    let v = self.cursor_y as i64 + e.value as i64;
                    v >= i32::MIN as i64 && v <= i32::MAX as i64 && self.screen_height >= 1
                } else {
                    true
                }
            },
            None => true,
        }
    }

    /// The next event of a batch of mouse events read from the device,
    /// looking from `start` on: the first one that stands for a portable
    /// event (relative motion, wheel, button or absolute position) gives it
    /// and moves the tracked cursor (relative motion is kept on the screen),
    /// and the index after it is where to look for the next one; `None`
    /// and the end of the batch when no event from `start` on does. Every
    /// usable event of a batch comes out in turn.
    pub fn read_mouse_events(&mut self, events: &Vec<RawEvent>, start: usize) -> (r: (Option<InputEvent>, usize))
        requires
            start <= events@.len(),
            first_mouse_from(events@, start as int) matches Some(k) ==> mouse_event_fits(*old(self), events@[k]),
        ensures
            match first_mouse_from(events@, start as int) {
                Some(k) => r.0 == Some(mouse_outcome(*old(self), events@[k]).0) && *final(self) == mouse_outcome(
                    *old(self),
                    events@[k],
                ).1 && r.1 == k + 1,
                None => r.0 is None && *final(self) == *old(self) && r.1 == events@.len(),
            },
    {
        match first_mouse(events, start) {
            Some(k) => {
                let n = events.len();
                assert(k < n);
                let next = k + 1;
                let e = events[k];
                assert(e == events@[k as int]);
                assert(mouse_event_fits(*old(self), e));
                let ev = if e.kind == EV_REL && e.code == REL_X {
                    self.cursor_x = clamp(self.cursor_x + e.value, 0, self.screen_width - 1);
                    InputEvent::MouseMove { dx: e.value, dy: 0 }
                } else if e.kind == EV_REL && e.code == REL_Y {
                    self.cursor_y = clamp(self.cursor_y + e.value, 0, self.screen_height - 1);
                    InputEvent::MouseMove { dx: 0, dy: e.value }
                } else if e.kind == EV_REL && e.code == REL_WHEEL {
                    InputEvent::MouseScroll { dx: 0, dy: e.value }
                } else if e.kind == EV_REL && e.code == REL_HWHEEL {
                    InputEvent::MouseScroll { dx: e.value, dy: 0 }
                } else if e.kind == EV_KEY {
                    let button = match evdev_key_to_mouse_button(e.code) {
                        Some(b) => b,
                        None => MouseButton::Left,
                    };
                    InputEvent::MouseButton { button, pressed: e.value == 1 }
                } else if e.code == ABS_X {
                    self.cursor_x = e.value;
                    InputEvent::MouseAbsolute { x: e.value, y: self.cursor_y }
                } else {
                    self.cursor_y = e.value;
                    InputEvent::MouseAbsolute { x: self.cursor_x, y: e.value }
                };
                (Some(ev), next)
            },
            None => (None, events.len()),
        }
    }

    /// The tracked cursor position.
    pub fn cursor_position(&self) -> (p: (i32, i32))
        ensures
            p == (self.cursor_x, self.cursor_y),
    {
        (self.cursor_x, self.cursor_y)
    }
}

/// `v` limited to `[lo, hi]`.
fn clamp(v: i32, lo: i32, hi: i32) -> (r: i32)
    ensures
        r == clamp_int(v as int, lo as int, hi as int),
{
    if v < lo {
        lo
    } else if v > hi {
        hi
    } else {
        v
    }
}

/// The index of the first usable mouse event from `start` on.
fn first_mouse(events: &Vec<RawEvent>, start: usize) -> (r: Option<usize>)
    ensures
        r matches Some(i) ==> first_mouse_from(events@, start as int) == Some(i as int) && start <= i < events@.len()
            && mouse_event_maps(events@[i as int]),
        r is None ==> first_mouse_from(events@, start as int) is None,
{
    proof {
        law_no_usable_event_skipped(events@, start as int);
    }
    let mut i: usize = start;
    while i < events.len()
        invariant
            start <= i,
            first_mouse_from(events@, start as int) == first_mouse_from(events@, i as int),
        decreases events.len() - i,
    {
        let e = events[i];
        let maps = (e.kind == EV_REL && (e.code == REL_X || e.code == REL_Y || e.code == REL_WHEEL || e.code
            == REL_HWHEEL)) || (e.kind == EV_KEY && evdev_key_to_mouse_button(e.code).is_some()) || (e.kind
            == EV_ABS && (e.code == ABS_X || e.code == ABS_Y));
        assert(maps == mouse_event_maps(events@[i as int]));
        if maps {
            return Some(i);
        }
        i += 1;
    }
    None
}

/// The next event of a batch of keyboard events read from the device,
/// looking from `start` on: the first key event that is a press, a repeat
/// (taken as a press) or a release gives a key event with the key's code,
/// and the index after it is where to look for the next one; `None` and the
/// end of the batch when no event from `start` on is one. Every key event
/// of a batch comes out in turn.
pub fn read_keyboard_events(events: &Vec<RawEvent>, start: usize) -> (r: (Option<InputEvent>, usize))
    requires
        start <= events@.len(),
    ensures
        match first_key_from(events@, start as int) {
            Some(k) => r.0 == Some(InputEvent::Key {
                code: KeyCode(events@[k].code as u32),
                state: if events@[k].value == 0 { KeyState::Released } else { KeyState::Pressed },
            }) && r.1 == k + 1,
            None => r.0 is None && r.1 == events@.len(),
        },
{
    proof {
        law_no_usable_event_skipped(events@, start as int);
    }
    let mut i: usize = start;
    while i < events.len()
        invariant
            start <= i,
            first_key_from(events@, start as int) == first_key_from(events@, i as int),
        decreases events.len() - i,
    {
        let e = events[i];
        if e.kind == EV_KEY {
            let state = if e.value == 0 {
                Some(KeyState::Released)
            } else if e.value == 1 || e.value == 2 {
                Some(KeyState::Pressed)
            } else {
                None
            };
            if let Some(state) = state {
                return (Some(InputEvent::Key { code: KeyCode(e.code as u32), state }), i + 1);
            }
        }
        i += 1;
    }
    (None, events.len())
}

/// What the capture needs to know of an input device.
#[derive(Debug, Clone, PartialEq, Eq)]
pub struct DeviceInfo {
    pub name: String,
    /// Reports relative axes.
    pub has_relative: bool,
    /// Reports keys.
    pub has_keys: bool,
    /// Has the left mouse button.
    pub has_btn_left: bool,
    /// Has the keys A, Z and Enter.
    pub has_letter_keys: bool,
}

/// A device that MonoMouse created itself (its name says so).
pub open spec fn is_own_device(d: DeviceInfo) -> bool {
    contains(d.name@, "monomouse"@) || contains(d.name@, "MonoMouse"@)
}

/// A device that can serve as the mouse.
pub open spec fn is_mouse(d: DeviceInfo) -> bool {
    !is_own_device(d) && d.has_relative && d.has_keys && d.has_btn_left
}

/// A device that can serve as the keyboard.
pub open spec fn is_keyboard(d: DeviceInfo) -> bool {
    !is_own_device(d) && d.has_keys && d.has_letter_keys
}

/// A device fit for the role: the mouse, or else the keyboard.
pub open spec fn fits_role(d: DeviceInfo, mouse: bool) -> bool {
    if mouse { is_mouse(d) } else { is_keyboard(d) }
}

/// The first index of `ds` whose device is fit for the role.
pub open spec fn first_such(ds: Seq<DeviceInfo>, mouse: bool) -> Option<int>
    decreases ds.len(),
{
    if ds.len() == 0 {
        None
    } else {
        match first_such(ds.drop_last(), mouse) {
            Some(k) => Some(k),
            None => if fits_role(ds.last(), mouse) { Some(ds.len() - 1) } else { None },
        }
    }
}

proof fn lemma_first_such_take(ds: Seq<DeviceInfo>, k: int, mouse: bool)
    requires
        0 <= k < ds.len(),
    ensures
        first_such(ds.take(k + 1), mouse) == match first_such(ds.take(k), mouse) {
            Some(i) => Some(i),
            None => if fits_role(ds[k], mouse) { Some(k) } else { None },
        },
{
    assert(ds.take(k + 1).drop_last() =~= ds.take(k));
}

proof fn lemma_first_such_extend(ds: Seq<DeviceInfo>, k: int, mouse: bool)
    requires
        0 <= k <= ds.len(),
        first_such(ds.take(k), mouse) is Some,
    ensures
        first_such(ds, mouse) == first_such(ds.take(k), mouse),
    decreases ds.len() - k,
{
    if k < ds.len() {
        lemma_first_such_take(ds, k, mouse);
        lemma_first_such_extend(ds, k + 1, mouse);
    } else {
        assert(ds.take(k) =~= ds);
    }
}

/// Choose the mouse and the keyboard to grab among the devices (in the
/// order of their event files): the first device fit for each role,
/// leaving out MonoMouse's own virtual device.
pub fn select_input_devices(devices: &Vec<DeviceInfo>) -> (r: (Option<usize>, Option<usize>))
    ensures
        r.0 == match first_such(devices@, true) {
            Some(k) => Some(k as usize),
            None => None::<usize>,
        },
        r.1 == match first_such(devices@, false) {
            Some(k) => Some(k as usize),
            None => None::<usize>,
        },
{
    let lower = to_chars("monomouse");
    let upper = to_chars("MonoMouse");
    let mut mouse: Option<usize> = None;
    let mut keyboard: Option<usize> = None;
    let mut i: usize = 0;
    while i < devices.len()
        invariant
            i <= devices@.len(),
            lower@ == "monomouse"@,
            upper@ == "MonoMouse"@,
            mouse == match first_such(devices@.take(i as int), true) {
                Some(k) => Some(k as usize),
                None => None::<usize>,
            },
            keyboard == match first_such(devices@.take(i as int), false) {
                Some(k) => Some(k as usize),
                None => None::<usize>,
            },
            first_such(devices@.take(i as int), true) matches Some(k) ==> 0 <= k < i,
            first_such(devices@.take(i as int), false) matches Some(k) ==> 0 <= k < i,
        decreases devices.len() - i,
    {
        proof {
            lemma_first_such_take(devices@, i as int, true);
            lemma_first_such_take(devices@, i as int, false);
        }
        let d = &devices[i];
        let name = to_chars(d.name.as_str());
        assert(name@.subrange(0, name@.len() as int) =~= name@);
        let own = contains_chars(&name, 0, name.len(), &lower) || contains_chars(&name, 0, name.len(), &upper);
        assert(own == is_own_device(devices@[i as int]));
        if mouse.is_none() && !own && d.has_relative && d.has_keys && d.has_btn_left {
            mouse = Some(i);
        }
        if keyboard.is_none() && !own && d.has_keys && d.has_letter_keys {
            keyboard = Some(i);
        }
        if mouse.is_some() && keyboard.is_some() {
            proof {
                lemma_first_such_extend(devices@, i + 1, true);
                lemma_first_such_extend(devices@, i + 1, false);
            }
            return (mouse, keyboard);
        }
        i += 1;
    }
    assert(devices@.take(devices@.len() as int) =~= devices@);
    (mouse, keyboard)
}

/// The uinput events that replay a portable event, ending with a
/// synchronisation report: motion and wheel axes only where they move, a
/// key code cut to 16 bits.
pub open spec fn spec_inject_events(e: InputEvent) -> Seq<RawEvent> {
    let syn = RawEvent { kind: EV_SYN, code: SYN_REPORT, value: 0 };
    match e {
        InputEvent::MouseMove { dx, dy } => (if dx != 0 { seq![RawEvent { kind: EV_REL, code: REL_X, value: dx }] } else { seq![] })
            + (if dy != 0 { seq![RawEvent { kind: EV_REL, code: REL_Y, value: dy }] } else { seq![] })
            + seq![syn],
        InputEvent::MouseAbsolute { x, y } => seq![
            RawEvent { kind: EV_ABS, code: ABS_X, value: x },
            RawEvent { kind: EV_ABS, code: ABS_Y, value: y },
            syn,
        ],
        InputEvent::MouseButton { button, pressed } => seq![
            RawEvent { kind: EV_KEY, code: spec_button_code(button), value: if pressed { 1 } else { 0 } },
            syn,
        ],
        InputEvent::MouseScroll { dx, dy } => (if dy != 0 { seq![RawEvent { kind: EV_REL, code: REL_WHEEL, value: dy }] } else { seq![] })
            + (if dx != 0 { seq![RawEvent { kind: EV_REL, code: REL_HWHEEL, value: dx }] } else { seq![] })
            + seq![syn],
        InputEvent::Key { code, state } => seq![
            RawEvent {
                kind: EV_KEY,
                code: code.0 as u16,
                value: match state {
                    KeyState::Pressed => 1,
                    KeyState::Released => 0,
                },
            },
            syn,
        ],
    }
}

/// The uinput events that replay a portable event.
pub fn inject_events(e: &InputEvent) -> (r: Vec<RawEvent>)
    ensures
        r@ == spec_inject_events(*e),
{
    let mut r: Vec<RawEvent> = Vec::new();
    match e {
        InputEvent::MouseMove { dx, dy } => {
            if *dx != 0 {
                r.push(RawEvent { kind: EV_REL, code: REL_X, value: *dx });
            }
            if *dy != 0 {
                r.push(RawEvent { kind: EV_REL, code: REL_Y, value: *dy });
            }
        },
        InputEvent::MouseAbsolute { x, y } => {
            r.push(RawEvent { kind: EV_ABS, code: ABS_X, value: *x });
            r.push(RawEvent { kind: EV_ABS, code: ABS_Y, value: *y });
        },
        InputEvent::MouseButton { button, pressed } => {
            r.push(RawEvent { kind: EV_KEY, code: mouse_button_code(*button), value: if *pressed { 1 } else { 0 } });
        },
        InputEvent::MouseScroll { dx, dy } => {
            if *dy != 0 {
                r.push(RawEvent { kind: EV_REL, code: REL_WHEEL, value: *dy });
            }
            if *dx != 0 {
                r.push(RawEvent { kind: EV_REL, code: REL_HWHEEL, value: *dx });
            }
        },
        InputEvent::Key { code, state } => {
            let value = match state {
                KeyState::Pressed => 1,
                KeyState::Released => 0,
            };
            r.push(RawEvent { kind: EV_KEY, code: code.0 as u16, value });
        },
    }
    r.push(RawEvent { kind: EV_SYN, code: SYN_REPORT, value: 0 });
    assert(r@ =~= spec_inject_events(*e));
    r
}

/// `a * k / b` truncated toward zero and saturated into `i32`, as
/// `(a as f64 / b as f64 * k as f64) as i32` stands for it; a zero `b`
/// gives the saturated sign of `a` (0 for `0 / 0`).
pub open spec fn scale_to_range(a: int, b: int, k: int) -> int {
    if b == 0 {
        if a == 0 { 0 } else if a > 0 { i32::MAX as int } else { i32::MIN as int }
    } else {
        saturate_i32(trunc_div(a * k, b))
    }
}

/// `a * k / b` truncated toward zero and saturated into `i32`.
pub fn scale_value(a: i64, b: i64, k: i64) -> (v: i32)
    requires
        -0x1_0000_0000 <= a <= 0x1_0000_0000,
        -0x1_0000_0000 <= b <= 0x1_0000_0000,
        0 <= k <= 0x10000,
    ensures
        v == scale_to_range(a as int, b as int, k as int),
{
    if b == 0 {
        if a == 0 {
            0
        } else if a > 0 {
            i32::MAX
        } else {
            i32::MIN
        }
    } else {
        let am: u64 = if a >= 0 { a as u64 } else { (-a) as u64 };
        let bm: u64 = if b >= 0 { b as u64 } else { (-b) as u64 };
        let km = k as u64;
        assert(am * km <= 0x1_0000_0000 * 0x10000) by (nonlinear_arith)
            requires
                am <= 0x1_0000_0000,
                km <= 0x10000,
        ;
        let prod: u64 = am * km;
        let q: u64 = prod / bm;
        assert(q <= prod) by (nonlinear_arith)
            requires
                bm >= 1,
                q == prod / bm,
        ;
        proof {
            let x = a * k;
            assert(prod == (if x >= 0 { x } else { -x })) by (nonlinear_arith)
                requires
                    prod == am * km,
                    km == k,
                    am == (if a >= 0 { a as int } else { -a }),
                    x == a * k,
                    k >= 0,
            ;
            assert(x == 0 <==> (a == 0 || k == 0)) by (nonlinear_arith)
                requires
                    x == a * k,
                    k >= 0,
            ;
            assert((x >= 0) <==> (a >= 0 || k == 0)) by (nonlinear_arith)
                requires
                    x == a * k,
                    k >= 0,
            ;
        }
        let negative = (a < 0) != (b < 0) && a != 0 && k != 0;
        if negative {
            if q > 0x8000_0000 {
                i32::MIN
            } else {
                (-(q as i64)) as i32
            }
        } else {
            if q > 0x7fff_ffff {
                i32::MAX
            } else {
                q as i32
            }
        }
    }
}

/// Moving to `(x, y)` on `monitor` adds the monitor's offset without
/// leaving `i32`.
pub open spec fn move_fits(monitor: Monitor, x: i32, y: i32) -> bool {
    i32::MIN <= monitor.x + x <= i32::MAX && i32::MIN <= monitor.y + y <= i32::MAX
}

/// The axis value of a position: scaled by the monitor's extent to the
/// axis range and kept within `0..=32767`, the range of the device's axes.
pub open spec fn axis_value(pos: int, extent: int) -> int {
    clamp_int(scale_to_range(pos, extent, ABS_RANGE as int), 0, ABS_RANGE as int)
}

/// The uinput events that move the cursor to `(x, y)` on `monitor`: the
/// absolute position scaled by the monitor's size and kept within the axis
/// range `0..=32767`, then a synchronisation report.
pub fn move_to_events(monitor: &Monitor, x: i32, y: i32) -> (r: Vec<RawEvent>)
    requires
        move_fits(*monitor, x, y),
    ensures
        r@ == seq![
            RawEvent { kind: EV_ABS, code: ABS_X, value: axis_value(monitor.x + x, monitor.width as int) as i32 },
            RawEvent { kind: EV_ABS, code: ABS_Y, value: axis_value(monitor.y + y, monitor.height as int) as i32 },
            RawEvent { kind: EV_SYN, code: SYN_REPORT, value: 0 },
        ],
{
    let abs_x = monitor.x + x;
    let abs_y = monitor.y + y;
    let sx = clamp(scale_value(abs_x as i64, monitor.width as i64, ABS_RANGE as i64), 0, ABS_RANGE);
    let sy = clamp(scale_value(abs_y as i64, monitor.height as i64, ABS_RANGE as i64), 0, ABS_RANGE);
    let mut r: Vec<RawEvent> = Vec::new();
    r.push(RawEvent { kind: EV_ABS, code: ABS_X, value: sx });
    r.push(RawEvent { kind: EV_ABS, code: ABS_Y, value: sy });
    r.push(RawEvent { kind: EV_SYN, code: SYN_REPORT, value: 0 });
    assert(r@ =~= seq![
        RawEvent { kind: EV_ABS, code: ABS_X, value: sx },
        RawEvent { kind: EV_ABS, code: ABS_Y, value: sy },
        RawEvent { kind: EV_SYN, code: SYN_REPORT, value: 0 },
    ]);
    r
}

/// `a * k / b` kept within `0..=k`, for `0 <= k <= 65535` and `b >= 1`:
/// nothing below 0, and otherwise the `r` with
/// `r * b <= a * k < (r + 1) * b`, or `k` where that would exceed it.
pub(crate) proof fn lemma_scaled_floor(a: int, b: int, k: int)
    requires
        1 <= b,
        0 <= k <= 65535,
    ensures
        ({
            let r = clamp_int(scale_to_range(a, b, k), 0, k);
            &&& 0 <= r <= k
            &&& a <= 0 ==> r == 0
            &&& a >= 0 ==> r * b <= a * k && (r == k || a * k < (r + 1) * b)
        }),
{
    let x: int = a * k;
    let r = clamp_int(scale_to_range(a, b, k), 0, k);
    if a <= 0 {
        assert(x <= 0) by (nonlinear_arith)
            requires
                x == a * k,
                a <= 0,
                k >= 0,
        ;
        assert((-x) / b >= 0) by (nonlinear_arith)
            requires
                -x >= 0,
                b >= 1,
        ;
        assert(trunc_div(x, b) <= 0);
        assert(scale_to_range(a, b, k) <= 0);
        assert(r == 0);
        if a == 0 {
            assert(x == 0);
            assert(r * b == 0);
        }
    } else {
        assert(x >= 0) by (nonlinear_arith)
            requires
                x == a * k,
                a >= 0,
                k >= 0,
        ;
        let q: int = x / b;
        assert(trunc_div(x, b) == q);
        assert(q * b <= x < (q + 1) * b && q >= 0) by (nonlinear_arith)
            requires
                q == x / b,
                b >= 1,
                x >= 0,
        ;
        if q >= k {
            assert(k * b <= q * b) by (nonlinear_arith)
                requires
                    k <= q,
                    b >= 1,
            ;
            assert(r == k);
        } else {
            assert(scale_to_range(a, b, k) == q);
            assert(r == q);
        }
    }
}

/// Moving to a position sets each absolute axis in proportion to it: the
/// axis value `v` of a position `p` on an extent `e` (`e >= 1`) is 0 for
/// `p <= 0`, and otherwise the largest `v` with `v * e <= p * 32767`, kept
/// at most 32767; the X axis follows `x`, the Y axis follows `y`.
pub proof fn law_axis_value_scales(pos: int, extent: int)
    requires
        1 <= extent,
    ensures
        0 <= axis_value(pos, extent) <= 32767,
        pos <= 0 ==> axis_value(pos, extent) == 0,
        pos >= 0 ==> axis_value(pos, extent) * extent <= pos * 32767 && (axis_value(pos, extent) == 32767
            || pos * 32767 < (axis_value(pos, extent) + 1) * extent),
{
    lemma_scaled_floor(pos, extent, 32767);
}

/// A button injected through uinput and read back from the device comes
/// back as the same button, pressed or released alike.
pub proof fn law_button_round_trip(button: MouseButton, pressed: bool, st: CaptureState)
    ensures
        spec_button_of(spec_button_code(button)) == Some(button),
        ({
            let es = spec_inject_events(InputEvent::MouseButton { button, pressed });
            &&& first_mouse_from(es, 0) == Some(0int)
            &&& mouse_outcome(st, es[0]).0 == (InputEvent::MouseButton { button, pressed })
        }),
{
    let es = spec_inject_events(InputEvent::MouseButton { button, pressed });
    assert(es.drop_last() =~= seq![es[0]]);
    assert(seq![es[0]].drop_last() =~= seq![]);
    assert(spec_button_of(spec_button_code(button)) == Some(button)) by {
        match button {
            MouseButton::Left => {},
            MouseButton::Right => {},
            MouseButton::Middle => {},
            MouseButton::Extra1 => {},
            MouseButton::Extra2 => {},
        }
    }
    assert(mouse_event_maps(es[0]));
}

/// The mouse buttons are the evdev key codes `0x110..=0x114` (BTN_LEFT,
/// BTN_RIGHT, BTN_MIDDLE, BTN_SIDE, BTN_EXTRA of the Linux input event
/// codes), in the order Left, Right, Middle, Extra1, Extra2: a key event
/// of the mouse (type 1) stands for a button exactly when its code lies in
/// that block, and each button is injected with its own code.
pub proof fn law_button_codes(code: u16, value: i32)
    ensures
        spec_button_of(code) is Some <==> 0x110 <= code <= 0x114,
        mouse_event_maps(RawEvent { kind: 1, code, value }) <==> 0x110 <= code <= 0x114,
        spec_button_of(code) matches Some(b) ==> spec_button_code(b) == code,
        spec_button_code(MouseButton::Left) == 0x110,
        spec_button_code(MouseButton::Right) == 0x111,
        spec_button_code(MouseButton::Middle) == 0x112,
        spec_button_code(MouseButton::Extra1) == 0x113,
        spec_button_code(MouseButton::Extra2) == 0x114,
{
}

/// What the mouse's evdev events mean, by their Linux codes: relative X
/// (type 2, code 0) and Y (code 1) motion moves by the value, the tracked
/// cursor following it and stopping at the screen's edges; the vertical
/// wheel (code 8) and horizontal wheel (code 6) scroll by the value and
/// leave the cursor; absolute X (type 3, code 0) and Y (code 1) place the
/// cursor on that axis and report it with the other axis unchanged.
pub proof fn law_mouse_event_meaning(st: CaptureState, value: i32)
    requires
        1 <= st.screen_width,
        1 <= st.screen_height,
    ensures
        ({
            let (ev, next) = mouse_outcome(st, RawEvent { kind: 2, code: 0, value });
            let to = st.cursor_x + value;
            &&& ev == InputEvent::MouseMove { dx: value, dy: 0 }
            &&& next.cursor_y == st.cursor_y && next.screen_width == st.screen_width
                && next.screen_height == st.screen_height
            &&& 0 <= next.cursor_x < st.screen_width
            &&& 0 <= to < st.screen_width ==> next.cursor_x == to
            &&& to < 0 ==> next.cursor_x == 0
            &&& to >= st.screen_width ==> next.cursor_x == st.screen_width - 1
        }),
        ({
            let (ev, next) = mouse_outcome(st, RawEvent { kind: 2, code: 1, value });
            let to = st.cursor_y + value;
            &&& ev == InputEvent::MouseMove { dx: 0, dy: value }
            &&& next.cursor_x == st.cursor_x && next.screen_width == st.screen_width
                && next.screen_height == st.screen_height
            &&& 0 <= next.cursor_y < st.screen_height
            &&& 0 <= to < st.screen_height ==> next.cursor_y == to
            &&& to < 0 ==> next.cursor_y == 0
            &&& to >= st.screen_height ==> next.cursor_y == st.screen_height - 1
        }),
        mouse_outcome(st, RawEvent { kind: 2, code: 8, value }) == (InputEvent::MouseScroll { dx: 0, dy: value }, st),
        mouse_outcome(st, RawEvent { kind: 2, code: 6, value }) == (InputEvent::MouseScroll { dx: value, dy: 0 }, st),
        mouse_outcome(st, RawEvent { kind: 3, code: 0, value }) == (
            InputEvent::MouseAbsolute { x: value, y: st.cursor_y },
            CaptureState { cursor_x: value, ..st },
        ),
        mouse_outcome(st, RawEvent { kind: 3, code: 1, value }) == (
            InputEvent::MouseAbsolute { x: st.cursor_x, y: value },
            CaptureState { cursor_y: value, ..st },
        ),
{
}

/// Which evdev events stand for a portable event, by their Linux codes: of
/// the keyboard, a key event (type 1) that is a release (0), a press (1) or
/// a repeat (2); of the mouse, relative X, Y, horizontal and vertical wheel
/// (type 2, codes 0, 1, 6, 8), a button (type 1, codes `0x110..=0x114`) and
/// absolute X and Y (type 3, codes 0, 1). Synchronisation reports (type 0)
/// stand for nothing.
pub proof fn law_usable_events(e: RawEvent)
    ensures
        key_event_maps(e) <==> e.kind == 1 && 0 <= e.value <= 2,
        mouse_event_maps(e) <==> (e.kind == 2 && (e.code == 0 || e.code == 1 || e.code == 6 || e.code == 8)) || (
        e.kind == 1 && 0x110 <= e.code <= 0x114) || (e.kind == 3 && (e.code == 0 || e.code == 1)),
        e.kind == 0 ==> !key_event_maps(e) && !mouse_event_maps(e),
{
}

/// Motion and wheel are replayed with the same Linux codes they are read
/// by: relative X (type 2, code 0) then Y (code 1) for motion, vertical
/// (code 8) then horizontal (code 6) wheel for scrolling, each only where
/// it moves, and a synchronisation report (all zero) last.
pub proof fn law_injected_motion_codes(a: i32, b: i32)
    ensures
        ({
            let es = spec_inject_events(InputEvent::MouseMove { dx: a, dy: b });
            &&& es.last() == (RawEvent { kind: 0, code: 0, value: 0 })
            &&& a != 0 ==> es[0] == (RawEvent { kind: 2, code: 0, value: a })
            &&& b != 0 ==> es[es.len() - 2] == (RawEvent { kind: 2, code: 1, value: b })
            &&& es.len() == 1 + (if a != 0 { 1int } else { 0 }) + (if b != 0 { 1int } else { 0 })
        }),
        ({
            let es = spec_inject_events(InputEvent::MouseScroll { dx: a, dy: b });
            &&& es.last() == (RawEvent { kind: 0, code: 0, value: 0 })
            &&& b != 0 ==> es[0] == (RawEvent { kind: 2, code: 8, value: b })
            &&& a != 0 ==> es[es.len() - 2] == (RawEvent { kind: 2, code: 6, value: a })
            &&& es.len() == 1 + (if a != 0 { 1int } else { 0 }) + (if b != 0 { 1int } else { 0 })
        }),
{
}

/// A key injected through uinput and read back from the device comes back
/// as the same key and state, for every key code that fits the 16-bit
/// event code.
pub proof fn law_key_round_trip(code: u32, state: KeyState)
    requires
        code <= u16::MAX,
    ensures
        ({
            let es = spec_inject_events(InputEvent::Key { code: KeyCode(code), state });
            &&& first_key_from(es, 0) == Some(0int)
            &&& InputEvent::Key {
                code: KeyCode(es[0].code as u32),
                state: if es[0].value == 0 { KeyState::Released } else { KeyState::Pressed },
            } == (InputEvent::Key { code: KeyCode(code), state })
        }),
{
    let es = spec_inject_events(InputEvent::Key { code: KeyCode(code), state });
    assert(es.drop_last() =~= seq![es[0]]);
    assert(seq![es[0]].drop_last() =~= seq![]);
    assert(key_event_maps(es[0]));
}

} // verus!
