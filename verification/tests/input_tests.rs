use monomouse::input::{InputEvent, KeyCode, KeyState, MouseButton};
use monomouse::linux_input::{
    evdev_key_to_mouse_button, inject_events, mouse_button_code, move_to_events, read_keyboard_events,
    scale_value, select_input_devices, CaptureState, DeviceInfo, RawEvent, ABS_X, ABS_Y, BTN_EXTRA, BTN_LEFT,
    BTN_RIGHT, BTN_SIDE, EV_ABS, EV_KEY, EV_REL, EV_SYN, REL_HWHEEL, REL_WHEEL, REL_X, REL_Y, SYN_REPORT,
};
use monomouse::monitor::Monitor;
use monomouse::windows_input::{
    keyboard_hook_action, keyboard_hook_event, mouse_hook_action, mouse_hook_event, HookAction, SendInputRecord, WindowsInjector, KEYEVENTF_KEYUP, KEYEVENTF_SCANCODE,
    MOUSEEVENTF_ABSOLUTE, MOUSEEVENTF_HWHEEL, MOUSEEVENTF_LEFTDOWN, MOUSEEVENTF_MOVE, MOUSEEVENTF_VIRTUALDESK,
    MOUSEEVENTF_WHEEL, MOUSEEVENTF_XUP, WM_KEYDOWN, WM_KEYUP, WM_LBUTTONDOWN, WM_MOUSEHWHEEL, WM_MOUSEMOVE,
    WM_MOUSEWHEEL, WM_SYSKEYUP, WM_XBUTTONDOWN,
};

fn ev(kind: u16, code: u16, value: i32) -> RawEvent {
    RawEvent { kind, code, value }
}

#[test]
fn evdev_buttons_map_both_ways() {
    assert_eq!(evdev_key_to_mouse_button(BTN_LEFT), Some(MouseButton::Left));
    assert_eq!(evdev_key_to_mouse_button(BTN_RIGHT), Some(MouseButton::Right));
    assert_eq!(evdev_key_to_mouse_button(BTN_SIDE), Some(MouseButton::Extra1));
    assert_eq!(evdev_key_to_mouse_button(BTN_EXTRA), Some(MouseButton::Extra2));
    assert_eq!(evdev_key_to_mouse_button(30), None);
    for b in [MouseButton::Left, MouseButton::Right, MouseButton::Middle, MouseButton::Extra1, MouseButton::Extra2] {
        assert_eq!(evdev_key_to_mouse_button(mouse_button_code(b)), Some(b));
    }
}

#[test]
fn relative_motion_moves_the_tracked_cursor_within_the_screen() {
    let mut st = CaptureState::new();
    assert_eq!(st.cursor_position(), (960, 540));
    let batch = vec![ev(EV_SYN, SYN_REPORT, 0), ev(EV_REL, REL_X, 100)];
    assert!(st.accepts_mouse_events(&batch, 0));
    assert_eq!(st.read_mouse_events(&batch, 0).0, Some(InputEvent::MouseMove { dx: 100, dy: 0 }));
    assert_eq!(st.cursor_position(), (1060, 540));
    let far = vec![ev(EV_REL, REL_Y, 5000)];
    assert_eq!(st.read_mouse_events(&far, 0).0, Some(InputEvent::MouseMove { dx: 0, dy: 5000 }));
    assert_eq!(st.cursor_position(), (1060, 1079));
    st.set_screen_size(800, 600);
    let back = vec![ev(EV_REL, REL_X, -5000)];
    st.read_mouse_events(&back, 0);
    assert_eq!(st.cursor_position(), (0, 1079));
}

#[test]
fn each_kind_of_mouse_event() {
    let mut st = CaptureState::new();
    let batch = vec![ev(EV_REL, REL_WHEEL, -1), ev(EV_REL, REL_X, 10)];
    assert_eq!(st.read_mouse_events(&batch, 0), (Some(InputEvent::MouseScroll { dx: 0, dy: -1 }), 1));
    assert_eq!(st.cursor_position(), (960, 540));
    assert_eq!(st.read_mouse_events(&batch, 1), (Some(InputEvent::MouseMove { dx: 10, dy: 0 }), 2));
    st.read_mouse_events(&vec![ev(EV_REL, REL_X, -10)], 0);
    let h = vec![ev(EV_REL, REL_HWHEEL, 2)];
    assert_eq!(st.read_mouse_events(&h, 0).0, Some(InputEvent::MouseScroll { dx: 2, dy: 0 }));
    let b = vec![ev(EV_KEY, 30, 1), ev(EV_KEY, BTN_RIGHT, 0)];
    assert_eq!(st.read_mouse_events(&b, 0).0, Some(InputEvent::MouseButton { button: MouseButton::Right, pressed: false }));
    let a = vec![ev(EV_ABS, ABS_X, 123)];
    assert_eq!(st.read_mouse_events(&a, 0).0, Some(InputEvent::MouseAbsolute { x: 123, y: 540 }));
    let a = vec![ev(EV_ABS, ABS_Y, 77)];
    assert_eq!(st.read_mouse_events(&a, 0).0, Some(InputEvent::MouseAbsolute { x: 123, y: 77 }));
    let none = vec![ev(EV_SYN, SYN_REPORT, 0), ev(EV_KEY, 30, 1)];
    assert_eq!(st.read_mouse_events(&none, 0).0, None);
    assert_eq!(st.cursor_position(), (123, 77));
}

#[test]
fn keyboard_batches_give_the_first_key_change() {
    let batch = vec![ev(EV_SYN, SYN_REPORT, 0), ev(EV_KEY, 30, 2), ev(EV_KEY, 31, 0)];
    assert_eq!(read_keyboard_events(&batch, 0).0, Some(InputEvent::Key { code: KeyCode(30), state: KeyState::Pressed }));
    let up = vec![ev(EV_KEY, 44, 0)];
    assert_eq!(read_keyboard_events(&up, 0).0, Some(InputEvent::Key { code: KeyCode(44), state: KeyState::Released }));
    let odd = vec![ev(EV_KEY, 44, 7), ev(EV_REL, REL_X, 1)];
    assert_eq!(read_keyboard_events(&odd, 0).0, None);
}

fn device(name: &str, rel: bool, keys: bool, btn: bool, letters: bool) -> DeviceInfo {
    DeviceInfo {
        name: name.to_string(),
        has_relative: rel,
        has_keys: keys,
        has_btn_left: btn,
        has_letter_keys: letters,
    }
}

#[test]
fn devices_are_chosen_in_order_skipping_our_own() {
    let ds = vec![
        device("MonoMouse Virtual Input", true, true, true, true),
        device("Power Button", false, true, false, false),
        device("Logitech Mouse", true, true, true, false),
        device("AT Keyboard", false, true, false, true),
        device("Other Mouse", true, true, true, false),
    ];
    assert_eq!(select_input_devices(&ds), (Some(2), Some(3)));
    let only_ours = vec![device("monomouse-virtual", true, true, true, true)];
    assert_eq!(select_input_devices(&only_ours), (None, None));
}

#[test]
fn injected_events_end_with_a_report() {
    let syn = ev(EV_SYN, SYN_REPORT, 0);
    assert_eq!(
        inject_events(&InputEvent::MouseMove { dx: 3, dy: 0 }),
        vec![ev(EV_REL, REL_X, 3), syn]
    );
    assert_eq!(inject_events(&InputEvent::MouseMove { dx: 0, dy: 0 }), vec![syn]);
    assert_eq!(
        inject_events(&InputEvent::MouseScroll { dx: -1, dy: 2 }),
        vec![ev(EV_REL, REL_WHEEL, 2), ev(EV_REL, REL_HWHEEL, -1), syn]
    );
    assert_eq!(
        inject_events(&InputEvent::MouseButton { button: MouseButton::Left, pressed: true }),
        vec![ev(EV_KEY, BTN_LEFT, 1), syn]
    );
    assert_eq!(
        inject_events(&InputEvent::Key { code: KeyCode(0x1_0000 + 30), state: KeyState::Released }),
        vec![ev(EV_KEY, 30, 0), syn]
    );
    assert_eq!(
        inject_events(&InputEvent::MouseAbsolute { x: 5, y: 6 }),
        vec![ev(EV_ABS, ABS_X, 5), ev(EV_ABS, ABS_Y, 6), syn]
    );
}

#[test]
fn a_button_survives_injection_and_capture() {
    let mut st = CaptureState::new();
    let e = InputEvent::MouseButton { button: MouseButton::Middle, pressed: true };
    assert_eq!(st.read_mouse_events(&inject_events(&e), 0).0, Some(e));
    let k = InputEvent::Key { code: KeyCode(57), state: KeyState::Pressed };
    assert_eq!(read_keyboard_events(&inject_events(&k), 0).0, Some(k));
}

#[test]
fn moves_are_scaled_to_the_axis_range() {
    let m = Monitor::new(1, "HDMI-1".to_string(), 1920, 1080, 0, 0);
    assert_eq!(
        move_to_events(&m, 960, 540),
        vec![ev(EV_ABS, ABS_X, 16383), ev(EV_ABS, ABS_Y, 16383), ev(EV_SYN, SYN_REPORT, 0)]
    );
    assert_eq!(scale_value(1920, 1920, 32767), 32767);
    assert_eq!(scale_value(-10, 1920, 32767), -170);
    assert_eq!(scale_value(5, 0, 32767), i32::MAX);
    assert_eq!(scale_value(0, 0, 32767), 0);
}

#[test]
fn mouse_hook_messages() {
    assert_eq!(mouse_hook_event(WM_MOUSEMOVE, 10, 20, 0), Some(InputEvent::MouseAbsolute { x: 10, y: 20 }));
    assert_eq!(
        mouse_hook_event(WM_LBUTTONDOWN, 0, 0, 0),
        Some(InputEvent::MouseButton { button: MouseButton::Left, pressed: true })
    );
    assert_eq!(mouse_hook_event(WM_MOUSEWHEEL, 0, 0, 120 << 16), Some(InputEvent::MouseScroll { dx: 0, dy: 1 }));
    assert_eq!(
        mouse_hook_event(WM_MOUSEWHEEL, 0, 0, 0xFF88_0000),
        Some(InputEvent::MouseScroll { dx: 0, dy: -1 })
    );
    assert_eq!(mouse_hook_event(WM_MOUSEHWHEEL, 0, 0, 240 << 16), Some(InputEvent::MouseScroll { dx: 2, dy: 0 }));
    assert_eq!(
        mouse_hook_event(WM_XBUTTONDOWN, 0, 0, 1 << 16),
        Some(InputEvent::MouseButton { button: MouseButton::Extra1, pressed: true })
    );
    assert_eq!(
        mouse_hook_event(WM_XBUTTONDOWN, 0, 0, 2 << 16),
        Some(InputEvent::MouseButton { button: MouseButton::Extra2, pressed: true })
    );
    assert_eq!(mouse_hook_event(0x02A3, 0, 0, 0), None);
}

#[test]
fn keyboard_hook_messages() {
    assert_eq!(keyboard_hook_event(WM_KEYDOWN, 30), Some(InputEvent::Key { code: KeyCode(30), state: KeyState::Pressed }));
    assert_eq!(keyboard_hook_event(WM_KEYUP, 30), Some(InputEvent::Key { code: KeyCode(30), state: KeyState::Released }));
    assert_eq!(keyboard_hook_event(WM_SYSKEYUP, 56), Some(InputEvent::Key { code: KeyCode(56), state: KeyState::Released }));
    assert_eq!(keyboard_hook_event(0x0102, 30), None);
}

#[test]
fn windows_normalised_coordinates() {
    let w = WindowsInjector::new(0, 0, 3840, 1080);
    assert_eq!(w.to_normalized(0, 0), (0, 0));
    assert_eq!(w.to_normalized(1920, 540), (32767, 32767));
    assert_eq!(w.to_normalized(3839, 1079), (65517, 65474));
    assert_eq!(w.to_normalized(-100, 5000), (0, 65535));
    let shifted = WindowsInjector::new(-1920, 0, 3840, 1080);
    assert_eq!(shifted.to_normalized(0, 0), (32767, 0));
}

#[test]
fn windows_records() {
    let w = WindowsInjector::new(0, 0, 1920, 1080);
    let m = Monitor::new(1, "DISPLAY1".to_string(), 1920, 1080, 0, 0);
    let abs = MOUSEEVENTF_MOVE | MOUSEEVENTF_ABSOLUTE | MOUSEEVENTF_VIRTUALDESK;
    assert_eq!(w.move_to(&m, 960, 540), SendInputRecord::Mouse { dx: 32767, dy: 32767, mouse_data: 0, flags: abs });
    assert_eq!(
        w.inject(&InputEvent::MouseMove { dx: 4, dy: -2 }),
        vec![SendInputRecord::Mouse { dx: 4, dy: -2, mouse_data: 0, flags: MOUSEEVENTF_MOVE }]
    );
    assert_eq!(
        w.inject(&InputEvent::MouseScroll { dx: 1, dy: -1 }),
        vec![
            SendInputRecord::Mouse { dx: 0, dy: 0, mouse_data: (-120i32) as u32, flags: MOUSEEVENTF_WHEEL },
            SendInputRecord::Mouse { dx: 0, dy: 0, mouse_data: 120, flags: MOUSEEVENTF_HWHEEL },
        ]
    );
    assert_eq!(
        w.inject(&InputEvent::MouseButton { button: MouseButton::Left, pressed: true }),
        vec![SendInputRecord::Mouse { dx: 0, dy: 0, mouse_data: 0, flags: MOUSEEVENTF_LEFTDOWN }]
    );
    assert_eq!(
        w.inject(&InputEvent::MouseButton { button: MouseButton::Extra2, pressed: false }),
        vec![SendInputRecord::Mouse { dx: 0, dy: 0, mouse_data: 2, flags: MOUSEEVENTF_XUP }]
    );
    assert_eq!(
        w.inject(&InputEvent::Key { code: KeyCode(30), state: KeyState::Released }),
        vec![SendInputRecord::Key { scan: 30, flags: KEYEVENTF_SCANCODE | KEYEVENTF_KEYUP }]
    );
    assert_eq!(
        w.inject(&InputEvent::MouseAbsolute { x: 1920, y: 1080 }),
        vec![SendInputRecord::Mouse { dx: 65535, dy: 65535, mouse_data: 0, flags: abs }]
    );
    assert!(InputEvent::MouseMove { dx: 1, dy: 1 }.moves_cursor());
    assert!(!InputEvent::MouseScroll { dx: 1, dy: 1 }.moves_cursor());
}

#[test]
fn hooks_swallow_events_only_while_grabbed() {
    let moved = Some(InputEvent::MouseAbsolute { x: 3, y: 4 });
    assert_eq!(mouse_hook_action(0, WM_MOUSEMOVE, 3, 4, 0, false), HookAction { event: moved, swallow: false });
    assert_eq!(mouse_hook_action(0, WM_MOUSEMOVE, 3, 4, 0, true), HookAction { event: moved, swallow: true });
    assert_eq!(mouse_hook_action(-1, WM_MOUSEMOVE, 3, 4, 0, true), HookAction { event: None, swallow: false });
    assert_eq!(mouse_hook_action(0, 0x02A3, 3, 4, 0, true), HookAction { event: None, swallow: false });
    let key = Some(InputEvent::Key { code: KeyCode(30), state: KeyState::Pressed });
    assert_eq!(keyboard_hook_action(0, WM_KEYDOWN, 30, true), HookAction { event: key, swallow: true });
    assert_eq!(keyboard_hook_action(0, 0x0102, 30, true), HookAction { event: None, swallow: false });
    assert_eq!(keyboard_hook_action(-1, WM_KEYDOWN, 30, true), HookAction { event: None, swallow: false });
}

#[test]
fn every_usable_event_of_a_batch_comes_out_in_turn() {
    let mut st = CaptureState::new();
    let batch = vec![ev(EV_REL, REL_X, 5), ev(EV_REL, REL_Y, 3), ev(EV_SYN, SYN_REPORT, 0)];
    assert!(st.accepts_mouse_events(&batch, 0));
    assert_eq!(st.read_mouse_events(&batch, 0), (Some(InputEvent::MouseMove { dx: 5, dy: 0 }), 1));
    assert!(st.accepts_mouse_events(&batch, 1));
    assert_eq!(st.read_mouse_events(&batch, 1), (Some(InputEvent::MouseMove { dx: 0, dy: 3 }), 2));
    assert_eq!(st.read_mouse_events(&batch, 2), (None, 3));
    assert_eq!(st.cursor_position(), (965, 543));
    let keys = vec![ev(EV_KEY, 30, 1), ev(EV_SYN, SYN_REPORT, 0), ev(EV_KEY, 30, 0)];
    assert_eq!(
        read_keyboard_events(&keys, 0),
        (Some(InputEvent::Key { code: KeyCode(30), state: KeyState::Pressed }), 1)
    );
    assert_eq!(
        read_keyboard_events(&keys, 1),
        (Some(InputEvent::Key { code: KeyCode(30), state: KeyState::Released }), 3)
    );
    assert_eq!(read_keyboard_events(&keys, 3), (None, 3));
}

#[test]
fn moves_stay_within_the_axis_range() {
    let m = Monitor::new(1, "DP-1".to_string(), 1920, 1080, 1920, 0);
    assert_eq!(
        move_to_events(&m, 100, 540),
        vec![ev(EV_ABS, ABS_X, 32767), ev(EV_ABS, ABS_Y, 16383), ev(EV_SYN, SYN_REPORT, 0)]
    );
    let left = Monitor::new(1, "DP-2".to_string(), 1920, 1080, -1920, 0);
    assert_eq!(move_to_events(&left, 10, 0)[0], ev(EV_ABS, ABS_X, 0));
}

#[test]
fn a_batch_yields_every_usable_event_in_turn() {
    let mut st = CaptureState::new();
    let batch = vec![ev(EV_REL, REL_X, 5), ev(EV_SYN, SYN_REPORT, 0), ev(EV_REL, REL_Y, 3), ev(EV_SYN, SYN_REPORT, 0)];
    assert_eq!(st.read_mouse_events(&batch, 0), (Some(InputEvent::MouseMove { dx: 5, dy: 0 }), 1));
    assert_eq!(st.read_mouse_events(&batch, 1), (Some(InputEvent::MouseMove { dx: 0, dy: 3 }), 3));
    assert_eq!(st.read_mouse_events(&batch, 3), (None, 4));
    assert_eq!(st.cursor_position(), (965, 543));
}
