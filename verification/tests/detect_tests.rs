use monomouse::detect::{
    decimal_string, detect_from_tools, detect_machine_monitors, hostname_from, linux_machine_id, machine_id_from_text, parse_gnome_randr_output,
    parse_wlr_randr_output, parse_xrandr_line, parse_xrandr_output, windows_machine_id, windows_monitor,
};
use monomouse::monitor::Monitor;
use monomouse::platform::InputError;

const XRANDR: &str = "Screen 0: minimum 8 x 8, current 3840 x 1080, maximum 32767 x 32767
HDMI-1 connected primary 1920x1080+0+0 (normal left inverted right x axis y axis) 527mm x 296mm
   1920x1080     60.00*+
DP-1 connected 2560x1440+1920+-200 (normal left inverted right x axis y axis) 600mm x 340mm
DP-2 disconnected (normal left inverted right x axis y axis)
";

const WLR: &str = "HDMI-A-1 \"Dell Inc. DELL U2414H (HDMI-A-1)\"
  Make: Dell Inc.
  Modes:
    1280x720 px, 60.000000 Hz
    1920x1080 px, 60.000000 Hz (preferred, current) *
  Position: 0,0
  Transform: normal
DP-1 \"Some Monitor\"
  Modes:
    2560x1440 px, 59.951000 Hz (current) *
  Position: 1920, 0
Virtual-1
  Modes:
    800x600 px, 60.000000 Hz
";

const GNOME: &str = "DP-1
\tcurrent: 1920x1080
\tscale: 1.5
eDP-1
\tcurrent: 2560x1600
";

fn summary(m: &Monitor) -> (String, u32, u32, i32, i32, u32) {
    (m.name.clone(), m.width, m.height, m.x, m.y, m.scale_milli)
}

#[test]
fn xrandr_lists_connected_outputs() {
    let ms = parse_xrandr_output(XRANDR, 42);
    assert_eq!(ms.len(), 2);
    assert_eq!(summary(&ms[0]), ("HDMI-1".to_string(), 1920, 1080, 0, 0, 1000));
    assert_eq!(summary(&ms[1]), ("DP-1".to_string(), 2560, 1440, 1920, -200, 1000));
    assert_eq!(ms[1].machine_id, 42);
    assert_eq!(ms[1].grid_col, None);
}

#[test]
fn xrandr_line_needs_a_geometry() {
    let m = parse_xrandr_line("eDP-1 connected 1366x768+0+0 (normal)", 1).unwrap();
    assert_eq!(summary(&m), ("eDP-1".to_string(), 1366, 768, 0, 0, 1000));
    assert!(parse_xrandr_line("eDP-1 connected (normal left)", 1).is_none());
    assert!(parse_xrandr_line("eDP-1 connected 13x66+a+0", 1).is_none());
    assert!(parse_xrandr_line("", 1).is_none());
}

#[test]
fn wlr_randr_blocks_with_a_current_mode() {
    let ms = parse_wlr_randr_output(WLR, 7);
    assert_eq!(ms.len(), 2);
    assert_eq!(summary(&ms[0]), ("HDMI-A-1".to_string(), 1920, 1080, 0, 0, 1000));
    assert_eq!(summary(&ms[1]), ("DP-1".to_string(), 2560, 1440, 1920, 0, 1000));
}

#[test]
fn gnome_randr_blocks_with_scale() {
    let ms = parse_gnome_randr_output(GNOME, 7);
    assert_eq!(ms.len(), 2);
    assert_eq!(summary(&ms[0]), ("DP-1".to_string(), 1920, 1080, 0, 0, 1500));
    assert_eq!(summary(&ms[1]), ("eDP-1".to_string(), 2560, 1600, 0, 0, 1000));
}

#[test]
fn the_first_tool_that_lists_monitors_wins() {
    let ms = detect_from_tools(Some(XRANDR), Some(WLR), Some(GNOME), 1).unwrap();
    assert_eq!(ms[0].name, "HDMI-1");
    let ms = detect_from_tools(Some("Screen 0: nothing\n"), Some(WLR), Some(GNOME), 1).unwrap();
    assert_eq!(ms[0].name, "HDMI-A-1");
    let ms = detect_from_tools(None, None, Some(GNOME), 1).unwrap();
    assert_eq!(ms[0].name, "DP-1");
    assert_eq!(detect_from_tools(None, Some(""), None, 1).err(), Some(InputError::NoMonitorsDetected));
}

#[test]
fn machine_id_file_is_read_as_a_uuid() {
    let text = "0123456789abcdef0123456789abcdef\n";
    let expected = 0x01234567_89ab_cdef_0123_456789abcdef;
    assert_eq!(machine_id_from_text(text), Some(expected));
    assert_eq!(machine_id_from_text("  too short  "), None);
    assert_eq!(machine_id_from_text("zzzzzzzzzzzzzzzzzzzzzzzzzzzzzzzz"), None);
    assert_eq!(
        machine_id_from_text("  67e5504410b1426f9247bb680e5fe0c8  "),
        Some(0x67e55044_10b1_426f_9247_bb680e5fe0c8)
    );
    assert_eq!(linux_machine_id(Some(text)), expected);
    assert_ne!(linux_machine_id(None), linux_machine_id(None));
}

#[test]
fn windows_machine_id_follows_the_computer_name() {
    let expected = uuid::Uuid::new_v5(&uuid::Uuid::NAMESPACE_DNS, b"DESKTOP-1").as_u128();
    assert_eq!(windows_machine_id(Some("DESKTOP-1")), expected);
    assert_ne!(windows_machine_id(None), windows_machine_id(None));
}

#[test]
fn host_name_is_trimmed_or_unknown() {
    assert_eq!(hostname_from(Some("  workstation\n")), "workstation");
    assert_eq!(hostname_from(None), "unknown");
}

#[test]
fn windows_monitors_take_the_device_name_and_dpi() {
    let m = windows_monitor(3, "\\\\.\\DISPLAY1\0\0\0", -1920, 0, 0, 1080, 144, 0);
    assert_eq!(summary(&m), ("\\\\.\\DISPLAY1".to_string(), 1920, 1080, -1920, 0, 1500));
    assert_eq!(m.machine_id, 3);
    let unnamed = windows_monitor(3, "\0\0", 0, 0, 1280, 1024, 96, 12);
    assert_eq!(summary(&unnamed), ("Monitor-12".to_string(), 1280, 1024, 0, 0, 1000));
}

#[test]
fn decimal_strings() {
    assert_eq!(decimal_string(0), "0");
    assert_eq!(decimal_string(7), "7");
    assert_eq!(decimal_string(1234), "1234");
    assert_eq!(decimal_string(usize::MAX), usize::MAX.to_string());
}

#[test]
fn wlr_randr_current_mode_marked_by_word() {
    let out = "HDMI-A-1 (Dell U2720Q)\n  Modes:\n    1920x1080 px, 60.000000 Hz (preferred, current)\n  Position: 1920,0\n";
    let ms = parse_wlr_randr_output(out, 9);
    assert_eq!(ms.len(), 1);
    assert_eq!(summary(&ms[0]), ("HDMI-A-1".to_string(), 1920, 1080, 1920, 0, 1000));
    assert_eq!(ms[0].machine_id, 9);
}

#[test]
fn detected_monitors_belong_to_the_machine_of_the_host_name() {
    let ms = detect_machine_monitors("desk", Some(XRANDR), None, None).unwrap();
    let id = monomouse::machine::Machine::new("desk".to_string(), false).id;
    assert_eq!(ms.len(), 2);
    assert!(ms.iter().all(|m| m.machine_id == id));
    assert_eq!(detect_machine_monitors("desk", None, None, None).err(), Some(InputError::NoMonitorsDetected));
}

#[test]
fn gnome_scale_rounds_to_the_nearest_thousandth() {
    let ms = parse_gnome_randr_output("A\n\tcurrent: 800x600\n\tscale: 1.2345\nB\n\tcurrent: 800x600\n\tscale: 1.2344\nC\n\tcurrent: 800x600\n\tscale: 0.9996\n", 1);
    assert_eq!(ms.len(), 3);
    assert_eq!(ms[0].scale_milli, 1235);
    assert_eq!(ms[1].scale_milli, 1234);
    assert_eq!(ms[2].scale_milli, 1000);
}

#[test]
fn gnome_scale_takes_an_exponent() {
    let ms = parse_gnome_randr_output(
        "A\n\tcurrent: 800x600\n\tscale: 1.5e0\nB\n\tcurrent: 800x600\n\tscale: 15E-1\nC\n\tcurrent: 800x600\n\tscale: 2e0\nD\n\tcurrent: 800x600\n\tscale: +0.0125e+2\nE\n\tcurrent: 800x600\n\tscale: 1e\nF\n\tcurrent: 800x600\n\tscale: 5e-4\n",
        1,
    );
    assert_eq!(ms.len(), 6);
    assert_eq!(ms[0].scale_milli, 1500);
    assert_eq!(ms[1].scale_milli, 1500);
    assert_eq!(ms[2].scale_milli, 2000);
    assert_eq!(ms[3].scale_milli, 1250);
    // Not a number: the default scale.
    assert_eq!(ms[4].scale_milli, 1000);
    // Half a thousandth rounds up.
    assert_eq!(ms[5].scale_milli, 1);
}
