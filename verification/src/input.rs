//! Portable input events forwarded between machines.

use vstd::prelude::*;

verus! {

/// A mouse button.
#[derive(Debug, Clone, Copy, PartialEq, Eq, Structural)]
pub enum MouseButton {
    Left,
    Right,
    Middle,
    Extra1,
    Extra2,
}

/// Whether a key went down or up.
#[derive(Debug, Clone, Copy, PartialEq, Eq, Structural)]
pub enum KeyState {
    Pressed,
    Released,
}

/// Platform-independent key code: a scancode, converted per platform.
#[derive(Debug, Clone, Copy, PartialEq, Eq, Structural)]
pub struct KeyCode(pub u32);

/// An input event to be forwarded across machines.
#[derive(Debug, Clone, Copy, PartialEq, Eq, Structural)]
pub enum InputEvent {
    MouseMove { dx: i32, dy: i32 },
    MouseAbsolute { x: i32, y: i32 },
    MouseButton { button: MouseButton, pressed: bool },
    MouseScroll { dx: i32, dy: i32 },
    Key { code: KeyCode, state: KeyState },
}

impl InputEvent {
    /// Whether the event moves the cursor (relatively or absolutely).
    pub open spec fn spec_moves_cursor(self) -> bool {
        self is MouseMove || self is MouseAbsolute
    }

    /// Whether the event moves the cursor.
    pub fn moves_cursor(&self) -> (b: bool)
        ensures
            b == self.spec_moves_cursor(),
    {
        match self {
            InputEvent::MouseMove { .. } => true,
            InputEvent::MouseAbsolute { .. } => true,
            _ => false,
        }
    }
}

} // verus!
