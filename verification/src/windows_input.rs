//! Windows input: turning the messages of the low-level mouse and keyboard
//! hooks into portable events, and portable events into the `SendInput`
//! records that replay them. Installing hooks and calling `SendInput` is
//! the caller's part; here messages and records are plain numbers with
//! their Win32 values.

use vstd::prelude::*;
use crate::input::{InputEvent, KeyCode, KeyState, MouseButton};
use crate::monitor::Monitor;
use crate::linux_input::{scale_to_range, scale_value, clamp_int, lemma_scaled_floor};

verus! {

/// Window messages of the low-level hooks.
pub const WM_KEYDOWN: u32 = 0x0100;
pub const WM_KEYUP: u32 = 0x0101;
pub const WM_SYSKEYDOWN: u32 = 0x0104;
pub const WM_SYSKEYUP: u32 = 0x0105;
pub const WM_MOUSEMOVE: u32 = 0x0200;
pub const WM_LBUTTONDOWN: u32 = 0x0201;
pub const WM_LBUTTONUP: u32 = 0x0202;
pub const WM_RBUTTONDOWN: u32 = 0x0204;
pub const WM_RBUTTONUP: u32 = 0x0205;
pub const WM_MBUTTONDOWN: u32 = 0x0207;
pub const WM_MBUTTONUP: u32 = 0x0208;
pub const WM_MOUSEWHEEL: u32 = 0x020A;
pub const WM_XBUTTONDOWN: u32 = 0x020B;
pub const WM_XBUTTONUP: u32 = 0x020C;
pub const WM_MOUSEHWHEEL: u32 = 0x020E;

/// `SendInput` mouse flags.
pub const MOUSEEVENTF_MOVE: u32 = 0x0001;
pub const MOUSEEVENTF_LEFTDOWN: u32 = 0x0002;
pub const MOUSEEVENTF_LEFTUP: u32 = 0x0004;
pub const MOUSEEVENTF_RIGHTDOWN: u32 = 0x0008;
pub const MOUSEEVENTF_RIGHTUP: u32 = 0x0010;
pub const MOUSEEVENTF_MIDDLEDOWN: u32 = 0x0020;
pub const MOUSEEVENTF_MIDDLEUP: u32 = 0x0040;
pub const MOUSEEVENTF_XDOWN: u32 = 0x0080;
pub const MOUSEEVENTF_XUP: u32 = 0x0100;
pub const MOUSEEVENTF_WHEEL: u32 = 0x0800;
pub const MOUSEEVENTF_HWHEEL: u32 = 0x1000;
pub const MOUSEEVENTF_VIRTUALDESK: u32 = 0x4000;
pub const MOUSEEVENTF_ABSOLUTE: u32 = 0x8000;

/// `SendInput` keyboard flags.
pub const KEYEVENTF_KEYUP: u32 = 0x0002;
pub const KEYEVENTF_SCANCODE: u32 = 0x0008;

/// The wheel distance of one notch.
pub const WHEEL_DELTA: i32 = 120;

/// The upper end of the normalised absolute coordinates.
pub const NORMALIZED_MAX: i32 = 65535;

/// One `SendInput` record.
#[derive(Debug, Clone, Copy, PartialEq, Eq, Structural)]
pub enum SendInputRecord {
    Mouse { dx: i32, dy: i32, mouse_data: u32, flags: u32 },
    Key { scan: u16, flags: u32 },
}

/// The high word of `mouseData`, read as a signed 16-bit number.
pub open spec fn signed_high_word(mouse_data: u32) -> int {
    let hw = mouse_data / 0x10000;
    if hw >= 0x8000 { hw - 0x10000 } else { hw as int }
}

/// `a / b` truncated toward zero, for `b > 0`.
pub open spec fn div_toward_zero(a: int, b: int) -> int {
    if a >= 0 { a / b } else { -((-a) / b) }
}

/// The portable event of a low-level mouse hook message, if it stands for
/// one.
pub open spec fn spec_mouse_hook_event(msg: u32, x: i32, y: i32, mouse_data: u32) -> Option<InputEvent> {
    if msg == WM_MOUSEMOVE {
        Some(InputEvent::MouseAbsolute { x, y })
    } else if msg == WM_LBUTTONDOWN {
        Some(InputEvent::MouseButton { button: MouseButton::Left, pressed: true })
    } else if msg == WM_LBUTTONUP {
        Some(InputEvent::MouseButton { button: MouseButton::Left, pressed: false })
    } else if msg == WM_RBUTTONDOWN {
        Some(InputEvent::MouseButton { button: MouseButton::Right, pressed: true })
    } else if msg == WM_RBUTTONUP {
        Some(InputEvent::MouseButton { button: MouseButton::Right, pressed: false })
    } else if msg == WM_MBUTTONDOWN {
        Some(InputEvent::MouseButton { button: MouseButton::Middle, pressed: true })
    } else if msg == WM_MBUTTONUP {
        Some(InputEvent::MouseButton { button: MouseButton::Middle, pressed: false })
    } else if msg == WM_MOUSEWHEEL {
        Some(InputEvent::MouseScroll { dx: 0, dy: div_toward_zero(signed_high_word(mouse_data), 120) as i32 })
    } else if msg == WM_MOUSEHWHEEL {
        Some(InputEvent::MouseScroll { dx: div_toward_zero(signed_high_word(mouse_data), 120) as i32, dy: 0 })
    } else if msg == WM_XBUTTONDOWN || msg == WM_XBUTTONUP {
        Some(InputEvent::MouseButton {
            button: if mouse_data / 0x10000 == 1 { MouseButton::Extra1 } else { MouseButton::Extra2 },
            pressed: msg == WM_XBUTTONDOWN,
        })
    } else {
        None
    }
}

/// The wheel notches in `mouseData`.
fn wheel_notches(mouse_data: u32) -> (n: i32)
    ensures
        n == div_toward_zero(signed_high_word(mouse_data), 120),
{
    let hw = mouse_data / 0x10000;
    if hw >= 0x8000 {
        let mag = 0x10000 - hw;
        -((mag / 120) as i32)
    } else {
        (hw / 120) as i32
    }
}

/// The portable event of a low-level mouse hook message: position, button,
/// wheel (in notches) or extra button; `None` for any other message.
pub fn mouse_hook_event(msg: u32, x: i32, y: i32, mouse_data: u32) -> (r: Option<InputEvent>)
    ensures
        r == spec_mouse_hook_event(msg, x, y, mouse_data),
{
    if msg == WM_MOUSEMOVE {
        Some(InputEvent::MouseAbsolute { x, y })
    } else if msg == WM_LBUTTONDOWN {
        Some(InputEvent::MouseButton { button: MouseButton::Left, pressed: true })
    } else if msg == WM_LBUTTONUP {
        Some(InputEvent::MouseButton { button: MouseButton::Left, pressed: false })
    } else if msg == WM_RBUTTONDOWN {
        Some(InputEvent::MouseButton { button: MouseButton::Right, pressed: true })
    } else if msg == WM_RBUTTONUP {
        Some(InputEvent::MouseButton { button: MouseButton::Right, pressed: false })
    } else if msg == WM_MBUTTONDOWN {
        Some(InputEvent::MouseButton { button: MouseButton::Middle, pressed: true })
    } else if msg == WM_MBUTTONUP {
        Some(InputEvent::MouseButton { button: MouseButton::Middle, pressed: false })
    } else if msg == WM_MOUSEWHEEL {
        Some(InputEvent::MouseScroll { dx: 0, dy: wheel_notches(mouse_data) })
    } else if msg == WM_MOUSEHWHEEL {
        Some(InputEvent::MouseScroll { dx: wheel_notches(mouse_data), dy: 0 })
    } else if msg == WM_XBUTTONDOWN || msg == WM_XBUTTONUP {
        let button = if mouse_data / 0x10000 == 1 { MouseButton::Extra1 } else { MouseButton::Extra2 };
        Some(InputEvent::MouseButton { button, pressed: msg == WM_XBUTTONDOWN })
    } else {
        None
    }
}

/// The portable event of a low-level keyboard hook message: a key going
/// down or up (system keys alike) with its scan code; `None` for any other
/// message.
pub fn keyboard_hook_event(msg: u32, scan_code: u32) -> (r: Option<InputEvent>)
    ensures
        (msg == WM_KEYDOWN || msg == WM_SYSKEYDOWN) ==> r == Some(
            InputEvent::Key { code: KeyCode(scan_code), state: KeyState::Pressed },
        ),
        (msg == WM_KEYUP || msg == WM_SYSKEYUP) ==> r == Some(
            InputEvent::Key { code: KeyCode(scan_code), state: KeyState::Released },
        ),
        !(msg == WM_KEYDOWN || msg == WM_SYSKEYDOWN || msg == WM_KEYUP || msg == WM_SYSKEYUP) ==> r is None,
{
    if msg == WM_KEYDOWN || msg == WM_SYSKEYDOWN {
        Some(InputEvent::Key { code: KeyCode(scan_code), state: KeyState::Pressed })
    } else if msg == WM_KEYUP || msg == WM_SYSKEYUP {
        Some(InputEvent::Key { code: KeyCode(scan_code), state: KeyState::Released })
    } else {
        None
    }
}

/// What a low-level hook does with a message: the event to hand on to the
/// capture, if any, and whether the message is swallowed (kept from the
/// local system) rather than passed to the next hook.
#[derive(Debug, Clone, Copy, PartialEq, Eq, Structural)]
pub struct HookAction {
    pub event: Option<InputEvent>,
    pub swallow: bool,
}

/// A hook hands on the event of a message it may process (`ncode >= 0`),
/// and swallows that message while input is grabbed.
pub open spec fn spec_hook_action(ncode: i32, event: Option<InputEvent>, grabbed: bool) -> HookAction {
    if ncode >= 0 {
        HookAction { event, swallow: event is Some && grabbed }
    } else {
        HookAction { event: None, swallow: false }
    }
}

/// The low-level mouse hook's handling of a message: its portable event
/// goes to the capture, and the message is swallowed while grabbed.
pub fn mouse_hook_action(ncode: i32, msg: u32, x: i32, y: i32, mouse_data: u32, grabbed: bool) -> (r: HookAction)
    ensures
        r == spec_hook_action(ncode, spec_mouse_hook_event(msg, x, y, mouse_data), grabbed),
{
    if ncode < 0 {
        return HookAction { event: None, swallow: false };
    }
    let event = mouse_hook_event(msg, x, y, mouse_data);
    HookAction { event, swallow: event.is_some() && grabbed }
}

/// The low-level keyboard hook's handling of a message: a key going down
/// or up goes to the capture, and is swallowed while grabbed.
pub fn keyboard_hook_action(ncode: i32, msg: u32, scan_code: u32, grabbed: bool) -> (r: HookAction)
    ensures
        r == spec_hook_action(
            ncode,
            if msg == WM_KEYDOWN || msg == WM_SYSKEYDOWN {
                Some(InputEvent::Key { code: KeyCode(scan_code), state: KeyState::Pressed })
            } else if msg == WM_KEYUP || msg == WM_SYSKEYUP {
                Some(InputEvent::Key { code: KeyCode(scan_code), state: KeyState::Released })
            } else {
                None
            },
            grabbed,
        ),
{
    if ncode < 0 {
        return HookAction { event: None, swallow: false };
    }
    let event = keyboard_hook_event(msg, scan_code);
    HookAction { event, swallow: event.is_some() && grabbed }
}

/// Input injection on Windows, by the virtual screen that spans all
/// monitors.
#[derive(Debug, Clone, Copy, PartialEq, Eq, Structural)]
pub struct WindowsInjector {
    pub virtual_screen_x: i32,
    pub virtual_screen_y: i32,
    pub virtual_screen_width: i32,
    pub virtual_screen_height: i32,
}

/// The flags that press or release a button.
pub open spec fn spec_button_flags(button: MouseButton, pressed: bool) -> u32 {
    match button {
        MouseButton::Left => if pressed { MOUSEEVENTF_LEFTDOWN } else { MOUSEEVENTF_LEFTUP },
        MouseButton::Right => if pressed { MOUSEEVENTF_RIGHTDOWN } else { MOUSEEVENTF_RIGHTUP },
        MouseButton::Middle => if pressed { MOUSEEVENTF_MIDDLEDOWN } else { MOUSEEVENTF_MIDDLEUP },
        _ => if pressed { MOUSEEVENTF_XDOWN } else { MOUSEEVENTF_XUP },
    }
}

/// The absolute-move flags over the virtual desktop.
pub open spec fn absolute_flags() -> u32 {
    MOUSEEVENTF_MOVE | MOUSEEVENTF_ABSOLUTE | MOUSEEVENTF_VIRTUALDESK
}

impl WindowsInjector {
    /// An injector for the virtual screen at `(x, y)` of the given size.
    pub fn new(x: i32, y: i32, width: i32, height: i32) -> (w: Self)
        ensures
            w == (WindowsInjector { virtual_screen_x: x, virtual_screen_y: y, virtual_screen_width: width, virtual_screen_height: height }),
    {
        WindowsInjector { virtual_screen_x: x, virtual_screen_y: y, virtual_screen_width: width, virtual_screen_height: height }
    }

    /// The normalised coordinate of `abs_x`, `abs_y` fits in `i32`.
    pub open spec fn normalize_fits(self, abs_x: int, abs_y: int) -> bool {
        i32::MIN <= abs_x - self.virtual_screen_x <= i32::MAX && i32::MIN <= abs_y - self.virtual_screen_y <= i32::MAX
    }

    /// The normalised coordinates `0..=65535` of a point of the virtual screen.
    pub open spec fn spec_normalized(self, abs_x: int, abs_y: int) -> (int, int) {
        (
            clamp_int(scale_to_range(abs_x - self.virtual_screen_x, self.virtual_screen_width as int, 65535), 0, 65535),
            clamp_int(scale_to_range(abs_y - self.virtual_screen_y, self.virtual_screen_height as int, 65535), 0, 65535),
        )
    }

    /// Convert absolute screen coordinates to Windows normalised
    /// coordinates (0-65535 across the virtual screen).
    pub fn to_normalized(&self, abs_x: i32, abs_y: i32) -> (r: (i32, i32))
        requires
            self.normalize_fits(abs_x as int, abs_y as int),
        ensures
            r.0 == self.spec_normalized(abs_x as int, abs_y as int).0,
            r.1 == self.spec_normalized(abs_x as int, abs_y as int).1,
    {
        let nx = scale_value((abs_x - self.virtual_screen_x) as i64, self.virtual_screen_width as i64, 65535);
        let ny = scale_value((abs_y - self.virtual_screen_y) as i64, self.virtual_screen_height as i64, 65535);
        let cx = if nx < 0 { 0 } else if nx > NORMALIZED_MAX { NORMALIZED_MAX } else { nx };
        let cy = if ny < 0 { 0 } else if ny > NORMALIZED_MAX { NORMALIZED_MAX } else { ny };
        (cx, cy)
    }

    /// The record that moves the cursor to `(x, y)` on `monitor`.
    pub fn move_to(&self, monitor: &Monitor, x: i32, y: i32) -> (r: SendInputRecord)
        requires
            i32::MIN <= monitor.x + x <= i32::MAX,
            i32::MIN <= monitor.y + y <= i32::MAX,
            self.normalize_fits(monitor.x + x, monitor.y + y),
        ensures
            r == (SendInputRecord::Mouse {
                dx: self.spec_normalized(monitor.x + x, monitor.y + y).0 as i32,
                dy: self.spec_normalized(monitor.x + x, monitor.y + y).1 as i32,
                mouse_data: 0,
                flags: absolute_flags(),
            }),
    {
        let (nx, ny) = self.to_normalized(monitor.x + x, monitor.y + y);
        SendInputRecord::Mouse { dx: nx, dy: ny, mouse_data: 0, flags: MOUSEEVENTF_MOVE | MOUSEEVENTF_ABSOLUTE | MOUSEEVENTF_VIRTUALDESK }
    }

    /// Injecting `e` stays within `i32`.
    pub open spec fn inject_fits(self, e: InputEvent) -> bool {
        match e {
            InputEvent::MouseAbsolute { x, y } => self.normalize_fits(x as int, y as int),
            InputEvent::MouseScroll { dx, dy } => i32::MIN <= dx * 120 <= i32::MAX && i32::MIN <= dy * 120 <= i32::MAX,
            _ => true,
        }
    }

    /// The records that replay `e`.
    pub open spec fn spec_inject(self, e: InputEvent) -> Seq<SendInputRecord> {
        match e {
            InputEvent::MouseMove { dx, dy } => seq![SendInputRecord::Mouse { dx, dy, mouse_data: 0, flags: MOUSEEVENTF_MOVE }],
            InputEvent::MouseAbsolute { x, y } => seq![SendInputRecord::Mouse {
                dx: self.spec_normalized(x as int, y as int).0 as i32,
                dy: self.spec_normalized(x as int, y as int).1 as i32,
                mouse_data: 0,
                flags: absolute_flags(),
            }],
            InputEvent::MouseButton { button, pressed } => seq![SendInputRecord::Mouse {
                dx: 0,
                dy: 0,
                mouse_data: match button {
                    MouseButton::Extra1 => 1u32,
                    MouseButton::Extra2 => 2u32,
                    _ => 0u32,
                },
                flags: spec_button_flags(button, pressed),
            }],
            InputEvent::MouseScroll { dx, dy } => (if dy != 0 {
                seq![SendInputRecord::Mouse { dx: 0, dy: 0, mouse_data: ((dy * 120) as i32) as u32, flags: MOUSEEVENTF_WHEEL }]
            } else {
                seq![]
            }) + (if dx != 0 {
                seq![SendInputRecord::Mouse { dx: 0, dy: 0, mouse_data: ((dx * 120) as i32) as u32, flags: MOUSEEVENTF_HWHEEL }]
            } else {
                seq![]
            }),
            InputEvent::Key { code, state } => seq![SendInputRecord::Key {
                scan: code.0 as u16,
                flags: match state {
                    KeyState::Released => KEYEVENTF_SCANCODE | KEYEVENTF_KEYUP,
                    KeyState::Pressed => KEYEVENTF_SCANCODE,
                },
            }],
        }
    }

    /// The `SendInput` records that replay a portable event.
    pub fn inject(&self, e: &InputEvent) -> (r: Vec<SendInputRecord>)
        requires
            self.inject_fits(*e),
        ensures
            r@ == self.spec_inject(*e),
    {
        let mut r: Vec<SendInputRecord> = Vec::new();
        match e {
            InputEvent::MouseMove { dx, dy } => {
                r.push(SendInputRecord::Mouse { dx: *dx, dy: *dy, mouse_data: 0, flags: MOUSEEVENTF_MOVE });
            },
            InputEvent::MouseAbsolute { x, y } => {
                let (nx, ny) = self.to_normalized(*x, *y);
                r.push(SendInputRecord::Mouse {
                    dx: nx,
                    dy: ny,
                    mouse_data: 0,
                    flags: MOUSEEVENTF_MOVE | MOUSEEVENTF_ABSOLUTE | MOUSEEVENTF_VIRTUALDESK,
                });
            },
            InputEvent::MouseButton { button, pressed } => {
                let flags = match (button, pressed) {
                    (MouseButton::Left, true) => MOUSEEVENTF_LEFTDOWN,
                    (MouseButton::Left, false) => MOUSEEVENTF_LEFTUP,
                    (MouseButton::Right, true) => MOUSEEVENTF_RIGHTDOWN,
                    (MouseButton::Right, false) => MOUSEEVENTF_RIGHTUP,
                    (MouseButton::Middle, true) => MOUSEEVENTF_MIDDLEDOWN,
                    (MouseButton::Middle, false) => MOUSEEVENTF_MIDDLEUP,
                    (MouseButton::Extra1, true) | (MouseButton::Extra2, true) => MOUSEEVENTF_XDOWN,
                    (MouseButton::Extra1, false) | (MouseButton::Extra2, false) => MOUSEEVENTF_XUP,
                };
                let mouse_data: u32 = match button {
                    MouseButton::Extra1 => 1,
                    MouseButton::Extra2 => 2,
                    _ => 0,
                };
                r.push(SendInputRecord::Mouse { dx: 0, dy: 0, mouse_data, flags });
            },
            InputEvent::MouseScroll { dx, dy } => {
                if *dy != 0 {
                    r.push(SendInputRecord::Mouse { dx: 0, dy: 0, mouse_data: (*dy * WHEEL_DELTA) as u32, flags: MOUSEEVENTF_WHEEL });
                }
                if *dx != 0 {
                    r.push(SendInputRecord::Mouse { dx: 0, dy: 0, mouse_data: (*dx * WHEEL_DELTA) as u32, flags: MOUSEEVENTF_HWHEEL });
                }
            },
            InputEvent::Key { code, state } => {
                let flags = match state {
                    KeyState::Released => KEYEVENTF_SCANCODE | KEYEVENTF_KEYUP,
                    KeyState::Pressed => KEYEVENTF_SCANCODE,
                };
                r.push(SendInputRecord::Key { scan: code.0 as u16, flags });
            },
        }
        assert(r@ =~= self.spec_inject(*e));
        r
    }
}

/// A wheel message (vertical, `WM_MOUSEWHEEL` = 0x020A, or horizontal,
/// `WM_MOUSEHWHEEL` = 0x020E) carries its distance `delta` as the signed
/// 16-bit high word of `mouseData`; it turns into a scroll along its own
/// axis by the whole notches of 120 in `delta`, truncated toward zero, so
/// a negative delta (down, or left) gives a negative scroll. The two
/// wheels read the same `mouseData` alike.
pub proof fn law_wheel_notches(x: i32, y: i32, mouse_data: u32)
    ensures
        ({
            let hw: int = (mouse_data / 0x10000) as int;
            let delta: int = if hw >= 0x8000 { hw - 0x10000 } else { hw };
            &&& spec_mouse_hook_event(0x020A, x, y, mouse_data) matches Some(InputEvent::MouseScroll { dx, dy }) && dx
                == 0 && (delta >= 0 ==> 0 <= dy * 120 <= delta < dy * 120 + 120) && (delta < 0 ==> dy * 120 - 120
                < delta <= dy * 120 <= 0)
            &&& spec_mouse_hook_event(0x020E, x, y, mouse_data) matches Some(InputEvent::MouseScroll { dx, dy }) && dy
                == 0 && (delta >= 0 ==> 0 <= dx * 120 <= delta < dx * 120 + 120) && (delta < 0 ==> dx * 120 - 120
                < delta <= dx * 120 <= 0)
        }),
        spec_mouse_hook_event(0x020A, x, y, mouse_data) matches Some(InputEvent::MouseScroll { dy, .. })
            && spec_mouse_hook_event(0x020E, x, y, mouse_data) matches Some(InputEvent::MouseScroll { dx, .. })
            && dx == dy,
{
    let hw: int = (mouse_data / 0x10000) as int;
    assert(0 <= hw < 0x10000);
    let delta: int = signed_high_word(mouse_data);
    let n = div_toward_zero(delta, 120);
    assert(-0x8000 <= delta < 0x8000);
    if delta >= 0 {
        assert(n * 120 <= delta < n * 120 + 120);
    } else {
        assert((-delta) / 120 * 120 <= -delta < (-delta) / 120 * 120 + 120);
    }
    assert(-300 <= n <= 300);
    assert(n as i32 == n);
}

/// A point of the virtual screen goes to normalised coordinates in
/// proportion to its offset from the screen's origin: on an axis of extent
/// `e >= 1`, the offset `p` gives 0 for `p <= 0`, and otherwise the largest
/// `n` with `n * e <= p * 65535`, kept at most 65535.
pub proof fn law_normalized_scales(inj: WindowsInjector, abs_x: int, abs_y: int)
    requires
        1 <= inj.virtual_screen_width,
        1 <= inj.virtual_screen_height,
    ensures
        ({
            let n = inj.spec_normalized(abs_x, abs_y);
            let px = abs_x - inj.virtual_screen_x;
            let py = abs_y - inj.virtual_screen_y;
            let w = inj.virtual_screen_width as int;
            let h = inj.virtual_screen_height as int;
            &&& 0 <= n.0 <= 65535 && 0 <= n.1 <= 65535
            &&& px <= 0 ==> n.0 == 0
            &&& py <= 0 ==> n.1 == 0
            &&& px >= 0 ==> n.0 * w <= px * 65535 && (n.0 == 65535 || px * 65535 < (n.0 + 1) * w)
            &&& py >= 0 ==> n.1 * h <= py * 65535 && (n.1 == 65535 || py * 65535 < (n.1 + 1) * h)
        }),
{
    lemma_scaled_floor(abs_x - inj.virtual_screen_x, inj.virtual_screen_width as int, 65535);
    lemma_scaled_floor(abs_y - inj.virtual_screen_y, inj.virtual_screen_height as int, 65535);
}

/// The button messages of the low-level mouse hook (`WM_LBUTTONDOWN` =
/// 0x0201 and so on) stand for the button they name, a `...DOWN` message
/// pressing it and the `...UP` message right after it releasing it; an
/// X button message names X button 1 by the high word 1 of `mouseData`.
pub proof fn law_mouse_hook_buttons(x: i32, y: i32, mouse_data: u32)
    ensures
        spec_mouse_hook_event(0x0201, x, y, mouse_data) == Some(
            InputEvent::MouseButton { button: MouseButton::Left, pressed: true },
        ),
        spec_mouse_hook_event(0x0202, x, y, mouse_data) == Some(
            InputEvent::MouseButton { button: MouseButton::Left, pressed: false },
        ),
        spec_mouse_hook_event(0x0204, x, y, mouse_data) == Some(
            InputEvent::MouseButton { button: MouseButton::Right, pressed: true },
        ),
        spec_mouse_hook_event(0x0205, x, y, mouse_data) == Some(
            InputEvent::MouseButton { button: MouseButton::Right, pressed: false },
        ),
        spec_mouse_hook_event(0x0207, x, y, mouse_data) == Some(
            InputEvent::MouseButton { button: MouseButton::Middle, pressed: true },
        ),
        spec_mouse_hook_event(0x0208, x, y, mouse_data) == Some(
            InputEvent::MouseButton { button: MouseButton::Middle, pressed: false },
        ),
        spec_mouse_hook_event(0x020B, x, y, mouse_data) == Some(
            InputEvent::MouseButton {
                button: if mouse_data / 0x10000 == 1 { MouseButton::Extra1 } else { MouseButton::Extra2 },
                pressed: true,
            },
        ),
        spec_mouse_hook_event(0x020C, x, y, mouse_data) == Some(
            InputEvent::MouseButton {
                button: if mouse_data / 0x10000 == 1 { MouseButton::Extra1 } else { MouseButton::Extra2 },
                pressed: false,
            },
        ),
        spec_mouse_hook_event(0x0200, x, y, mouse_data) == Some(InputEvent::MouseAbsolute { x, y }),
{
}

/// A button is replayed with the `SendInput` flag of its own button
/// (`MOUSEEVENTF_LEFTDOWN` = 0x2, `RIGHTDOWN` = 0x8, `MIDDLEDOWN` = 0x20,
/// `XDOWN` = 0x80), the release flag being the press flag doubled; an X
/// button replayed and seen again by the mouse hook, with its `mouseData`
/// in the high word, comes back as the same button, pressed or released
/// alike.
pub proof fn law_button_injection(inj: WindowsInjector, button: MouseButton, pressed: bool)
    ensures
        spec_button_flags(button, false) == 2 * spec_button_flags(button, true),
        spec_button_flags(MouseButton::Left, true) == 0x2,
        spec_button_flags(MouseButton::Right, true) == 0x8,
        spec_button_flags(MouseButton::Middle, true) == 0x20,
        spec_button_flags(MouseButton::Extra1, true) == 0x80,
        spec_button_flags(MouseButton::Extra2, true) == 0x80,
        inj.spec_inject(InputEvent::MouseButton { button, pressed }).len() == 1,
        inj.spec_inject(InputEvent::MouseButton { button, pressed })[0] matches SendInputRecord::Mouse {
            mouse_data,
            flags,
            ..
        } && flags == spec_button_flags(button, pressed) && ((button == MouseButton::Extra1 || button
            == MouseButton::Extra2) ==> mouse_data <= 2 && spec_mouse_hook_event(
            if pressed { 0x020B } else { 0x020C },
            0,
            0,
            (mouse_data * 0x10000) as u32,
        ) == Some(InputEvent::MouseButton { button, pressed })),
{
    let d: u32 = match button {
        MouseButton::Extra1 => 1u32,
        MouseButton::Extra2 => 2u32,
        _ => 0u32,
    };
    assert(((d * 0x10000) as u32) / 0x10000 == d);
}

/// Relative motion is replayed as one relative move (`MOUSEEVENTF_MOVE` =
/// 0x1) by the same amounts; a scroll as a vertical wheel record
/// (`MOUSEEVENTF_WHEEL` = 0x800) then a horizontal one (`MOUSEEVENTF_HWHEEL`
/// = 0x1000), each only where it moves, whose `mouseData`, read as signed,
/// is the notches times 120 in the direction of the scroll.
pub proof fn law_injected_motion(inj: WindowsInjector, dx: i32, dy: i32)
    requires
        i32::MIN <= dx * 120 <= i32::MAX,
        i32::MIN <= dy * 120 <= i32::MAX,
    ensures
        inj.spec_inject(InputEvent::MouseMove { dx, dy }) == seq![
            SendInputRecord::Mouse { dx, dy, mouse_data: 0, flags: 0x1 },
        ],
        ({
            let rs = inj.spec_inject(InputEvent::MouseScroll { dx, dy });
            &&& rs.len() == (if dx != 0 { 1int } else { 0 }) + (if dy != 0 { 1int } else { 0 })
            &&& dy != 0 ==> (rs[0] matches SendInputRecord::Mouse { dx: 0, dy: 0, mouse_data, flags } && flags
                == 0x800 && mouse_data as i32 == dy * 120)
            &&& dx != 0 ==> (rs[rs.len() - 1] matches SendInputRecord::Mouse { dx: 0, dy: 0, mouse_data, flags }
                && flags == 0x1000 && mouse_data as i32 == dx * 120)
        }),
{
    let a: i32 = (dy * 120) as i32;
    let b: i32 = (dx * 120) as i32;
    assert((a as u32) as i32 == a) by (bit_vector);
    assert((b as u32) as i32 == b) by (bit_vector);
}

} // verus!
