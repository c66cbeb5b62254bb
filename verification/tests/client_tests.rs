use monomouse::client::{check_cursor_edge, expect_grid, expect_welcome, ClientState, HandshakeError, InputDisposition};
use monomouse::grid::{EdgeRatio, Grid, GridEdge};
use monomouse::input::{InputEvent, KeyCode, KeyState};
use monomouse::machine::Machine;
use monomouse::monitor::Monitor;
use monomouse::protocol::Message;

/// A client with one 1920x1080 monitor, placed in the grid it received.
fn client() -> (ClientState, u128) {
    let mut machine = Machine::new("laptop".to_string(), false);
    let mon = Monitor::new(machine.id, "eDP-1".to_string(), 1920, 1080, 0, 0);
    let id = mon.id;
    machine.monitors.push(mon.clone());
    let mut grid = Grid::new();
    grid.place_monitor(mon, 1, 0).unwrap();
    (ClientState::new(machine, grid), id)
}

#[test]
fn cursor_edges_are_found_with_their_ratio() {
    assert_eq!(check_cursor_edge(1920, 1080, 0, 540), Some((GridEdge::Left, EdgeRatio { numer: 540, denom: 1080 })));
    assert_eq!(check_cursor_edge(1920, 1080, 1919, 10), Some((GridEdge::Right, EdgeRatio { numer: 10, denom: 1080 })));
    assert_eq!(check_cursor_edge(1920, 1080, 960, 0), Some((GridEdge::Top, EdgeRatio { numer: 960, denom: 1920 })));
    assert_eq!(check_cursor_edge(1920, 1080, 960, 1079), Some((GridEdge::Bottom, EdgeRatio { numer: 960, denom: 1920 })));
    assert_eq!(check_cursor_edge(1920, 1080, 960, 540), None);
    assert_eq!(check_cursor_edge(1920, 1080, -5, -5), Some((GridEdge::Left, EdgeRatio { numer: 0, denom: 1080 })));
    // The position along the edge stays within the edge.
    assert_eq!(check_cursor_edge(1920, 1080, -5, 1200), Some((GridEdge::Left, EdgeRatio { numer: 1080, denom: 1080 })));
    assert_eq!(check_cursor_edge(1920, 1080, 2500, -30), Some((GridEdge::Right, EdgeRatio { numer: 0, denom: 1080 })));
}

#[test]
fn handshake_expects_welcome_then_grid() {
    assert_eq!(expect_welcome(&Message::Welcome { server_id: 77 }), Ok(77));
    assert_eq!(expect_welcome(&Message::Ping), Err(HandshakeError::ExpectedWelcome));
    let g = expect_grid(Message::GridConfig(Grid::new())).unwrap();
    assert!(g.monitors.is_empty());
    assert_eq!(expect_grid(Message::Deactivate).err(), Some(HandshakeError::ExpectedGridConfig));
}

#[test]
fn inactive_client_ignores_input() {
    let (mut c, _) = client();
    let e = InputEvent::MouseMove { dx: 10, dy: 10 };
    assert!(c.accepts_input(&e));
    assert_eq!(c.on_input(&e), InputDisposition::Ignore);
    assert_eq!((c.cursor_x, c.cursor_y), (0, 0));
}

#[test]
fn activation_moves_the_cursor_and_finds_the_local_monitor() {
    let (mut c, id) = client();
    let m = c.on_activate(id, 100, 200).unwrap();
    assert_eq!(m.name, "eDP-1");
    assert!(c.active);
    assert_eq!(c.active_monitor_id, Some(id));
    assert_eq!((c.cursor_x, c.cursor_y), (100, 200));
    assert!(c.on_activate(4242, 1, 1).is_none());
}

#[test]
fn moves_inside_are_injected_and_tracked() {
    let (mut c, id) = client();
    c.on_activate(id, 100, 200);
    let e = InputEvent::MouseMove { dx: 50, dy: -20 };
    assert!(c.accepts_input(&e));
    assert_eq!(c.on_input(&e), InputDisposition::Inject);
    assert_eq!((c.cursor_x, c.cursor_y), (150, 180));
    let k = InputEvent::Key { code: KeyCode(30), state: KeyState::Released };
    assert_eq!(c.on_input(&k), InputDisposition::Inject);
    assert_eq!((c.cursor_x, c.cursor_y), (150, 180));
}

#[test]
fn reaching_an_edge_reports_it_and_deactivates() {
    let (mut c, id) = client();
    c.on_activate(id, 100, 540);
    let e = InputEvent::MouseMove { dx: -300, dy: 0 };
    assert!(c.accepts_input(&e));
    assert_eq!(
        c.on_input(&e),
        InputDisposition::EdgeHit {
            monitor_id: id,
            edge: GridEdge::Left,
            position_ratio: EdgeRatio { numer: 540, denom: 1080 }
        }
    );
    assert!(!c.active);
    assert_eq!(c.active_monitor_id, None);
    // The cursor is kept within the monitor.
    assert_eq!((c.cursor_x, c.cursor_y), (0, 540));
}

#[test]
fn absolute_moves_set_the_cursor() {
    let (mut c, id) = client();
    c.on_activate(id, 100, 100);
    let e = InputEvent::MouseAbsolute { x: 1919, y: 500 };
    assert_eq!(
        c.on_input(&e),
        InputDisposition::EdgeHit {
            monitor_id: id,
            edge: GridEdge::Right,
            position_ratio: EdgeRatio { numer: 500, denom: 1080 }
        }
    );
    assert_eq!((c.cursor_x, c.cursor_y), (1919, 500));
}

#[test]
fn overflowing_moves_are_not_accepted() {
    let (mut c, id) = client();
    c.on_activate(id, i32::MAX, 5);
    assert!(!c.accepts_input(&InputEvent::MouseMove { dx: 1, dy: 0 }));
}

#[test]
fn deactivation_and_new_grid() {
    let (mut c, id) = client();
    c.on_activate(id, 10, 10);
    c.on_deactivate();
    assert!(!c.active);
    assert_eq!(c.active_monitor_id, None);
    assert_eq!((c.cursor_x, c.cursor_y), (10, 10));
    c.on_grid(Grid::new());
    assert!(c.grid.monitors.is_empty());
}

#[test]
fn input_after_an_edge_hit_is_ignored_until_activation() {
    let (mut c, id) = client();
    c.on_activate(id, 10, 540);
    let out = InputEvent::MouseMove { dx: -20, dy: 0 };
    assert!(matches!(c.on_input(&out), InputDisposition::EdgeHit { .. }));
    let back = InputEvent::MouseMove { dx: 500, dy: 0 };
    assert!(c.accepts_input(&back));
    assert_eq!(c.on_input(&back), InputDisposition::Ignore);
    assert_eq!((c.cursor_x, c.cursor_y), (0, 540));
    c.on_activate(id, 10, 540);
    assert_eq!(c.on_input(&back), InputDisposition::Inject);
    assert!(c.active);
    assert_eq!(c.active_monitor_id, Some(id));
    assert_eq!((c.cursor_x, c.cursor_y), (510, 540));
}
