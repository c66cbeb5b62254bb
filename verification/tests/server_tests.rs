use monomouse::grid::{EdgeRatio, Grid, GridEdge};
use monomouse::input::{InputEvent, KeyCode, KeyState};
use monomouse::machine::Machine;
use monomouse::monitor::Monitor;
use monomouse::protocol::Message;
use monomouse::server::{
    compute_entry_point, edge_offset, initial_focus, max_grid_col, merge_local_monitors, positions_within_bounds, scale_offset,
    EdgeHitOutcome, Focus, InputRoute, ServerAction, ServerState,
};

fn monitor(machine: u128, name: &str, w: u32, h: u32) -> Monitor {
    Monitor::new(machine, name.to_string(), w, h, 0, 0)
}

fn client(name: &str, monitors: &[(&str, u32, u32)]) -> Machine {
    let mut m = Machine::new(name.to_string(), false);
    for (n, w, h) in monitors {
        m.monitors.push(monitor(m.id, n, *w, *h));
    }
    m
}

/// A server "desk" with one 1920x1080 monitor in cell (0, 0).
fn server() -> ServerState {
    let me = Machine::new("desk".to_string(), true);
    let locals = vec![monitor(me.id, "HDMI-1", 1920, 1080)];
    let mut grid = Grid::new();
    merge_local_monitors(&mut grid, &locals);
    let focus = initial_focus(me.id, &locals).unwrap();
    ServerState::new(me.id, locals, grid, focus)
}

fn connect(s: &mut ServerState, m: &Machine) {
    assert!(s.can_admit(m));
    s.admit_client(m);
    s.register_client(m);
}

#[test]
fn server_monitors_are_merged_once_in_row_zero() {
    let me = 5;
    let locals = vec![monitor(me, "A", 800, 600), monitor(me, "B", 800, 600)];
    let mut grid = Grid::new();
    merge_local_monitors(&mut grid, &locals);
    assert_eq!(grid.monitors.len(), 2);
    assert_eq!((grid.monitors[0].grid_col, grid.monitors[0].grid_row), (Some(0), Some(0)));
    assert_eq!((grid.monitors[1].grid_col, grid.monitors[1].grid_row), (Some(1), Some(0)));
    assert_eq!(grid.transitions.len(), 2);
    // Merging again adds nothing: the names are already there.
    merge_local_monitors(&mut grid, &locals);
    assert_eq!(grid.monitors.len(), 2);
}

#[test]
fn initial_focus_is_the_first_local_monitor() {
    let locals = vec![monitor(3, "A", 10, 10), monitor(3, "B", 10, 10)];
    let f = initial_focus(3, &locals).unwrap();
    assert_eq!(f, Focus { machine_id: 3, monitor_id: locals[0].id, is_local: true });
    assert_eq!(initial_focus(3, &vec![]), None);
}

#[test]
fn admitted_client_monitors_go_right_of_the_grid() {
    let mut s = server();
    let laptop = client("laptop", &[("eDP-1", 1280, 800), ("DP-2", 1920, 1080)]);
    connect(&mut s, &laptop);
    assert!(s.is_connected(laptop.id));
    assert_eq!(s.grid.monitors.len(), 3);
    assert_eq!(s.grid.monitors[1].grid_col, Some(1));
    assert_eq!(s.grid.monitors[2].grid_col, Some(2));
    assert_eq!(s.grid.monitors[2].grid_row, Some(0));
    assert_eq!(max_grid_col(&s.grid.monitors), 2);
    let server_mon = s.server_monitors[0].id;
    let t = s.grid.find_transition(server_mon, GridEdge::Right).unwrap();
    assert_eq!(t.to_monitor, laptop.monitors[0].id);
    assert_eq!(t.to_machine, laptop.id);
}

#[test]
fn reconnecting_client_replaces_its_old_monitors() {
    let mut s = server();
    let first = client("laptop", &[("eDP-1", 1280, 800)]);
    connect(&mut s, &first);
    // The same machine again, with new monitor ids.
    let again = client("laptop", &[("eDP-1", 1280, 800)]);
    connect(&mut s, &again);
    assert_eq!(s.grid.monitors.len(), 2);
    assert_eq!(s.grid.monitors[1].id, again.monitors[0].id);
    assert_eq!(s.clients.len(), 1);
}

#[test]
fn admission_returns_the_clients_it_drops() {
    let mut s = server();
    let first = client("laptop", &[("eDP-1", 1280, 800)]);
    let other = client("tablet", &[("DSI-1", 800, 1280)]);
    connect(&mut s, &first);
    connect(&mut s, &other);
    let again = client("laptop", &[("eDP-1", 1280, 800)]);
    assert!(s.can_admit(&again));
    assert_eq!(s.admit_client(&again), vec![first.id]);
    assert_eq!(s.clients.len(), 1);
    assert_eq!(s.clients[0].id, other.id);
    let fresh = client("desk2", &[("HDMI-1", 1920, 1080)]);
    assert!(s.can_admit(&fresh));
    assert_eq!(s.admit_client(&fresh), Vec::<u128>::new());
}

#[test]
fn edge_hit_towards_server_returns_the_focus() {
    let mut s = server();
    let laptop = client("laptop", &[("eDP-1", 1280, 800)]);
    connect(&mut s, &laptop);
    s.focus_transferred(laptop.id, laptop.monitors[0].id);
    let msg = Message::EdgeHit {
        monitor_id: laptop.monitors[0].id,
        edge: GridEdge::Left,
        position_ratio: EdgeRatio { numer: 1, denom: 2 },
    };
    assert!(s.accepts_message(&msg));
    let action = s.handle_client_message(laptop.id, &msg);
    assert_eq!(action, ServerAction::EdgeHit(EdgeHitOutcome::ReturnedToServer { deactivate_sender: true }));
    assert_eq!(s.focus, Focus { machine_id: s.server_id, monitor_id: s.server_monitors[0].id, is_local: true });
}

#[test]
fn edge_hit_towards_a_client_activates_it_at_the_entry_point() {
    let mut s = server();
    let left = client("left", &[("L", 1000, 500)]);
    let right = client("right", &[("R", 800, 600)]);
    connect(&mut s, &left);
    connect(&mut s, &right);
    let action = s.edge_hit(left.id, left.monitors[0].id, GridEdge::Right, EdgeRatio { numer: 1, denom: 4 });
    assert_eq!(
        action,
        EdgeHitOutcome::Activate {
            deactivate_sender: true,
            machine_id: right.id,
            monitor_id: right.monitors[0].id,
            x: 0,
            y: 150,
        }
    );
    // The focus only moves once the activation went out.
    assert!(s.focus.is_local);
}

#[test]
fn edge_hit_without_transition_does_nothing() {
    let mut s = server();
    let laptop = client("laptop", &[("eDP-1", 1280, 800)]);
    connect(&mut s, &laptop);
    let before = s.focus;
    let r = s.edge_hit(laptop.id, laptop.monitors[0].id, GridEdge::Top, EdgeRatio { numer: 0, denom: 1 });
    assert_eq!(r, EdgeHitOutcome::NoTransition);
    assert_eq!(s.focus, before);
}

#[test]
fn input_stays_local_or_goes_to_the_focused_client() {
    let mut s = server();
    let key = InputEvent::Key { code: KeyCode(30), state: KeyState::Pressed };
    assert_eq!(s.handle_input_event(&key), InputRoute::Local);
    assert_eq!(s.handle_input_event(&InputEvent::MouseMove { dx: 5, dy: 0 }), InputRoute::Local);
    let laptop = client("laptop", &[("eDP-1", 1280, 800)]);
    connect(&mut s, &laptop);
    s.focus_transferred(laptop.id, laptop.monitors[0].id);
    assert_eq!(s.handle_input_event(&key), InputRoute::Forward { machine_id: laptop.id });
    s.focus_transferred(424242, 1);
    assert_eq!(s.handle_input_event(&key), InputRoute::Dropped);
}

#[test]
fn disconnect_removes_the_client_and_its_monitors() {
    let mut s = server();
    let laptop = client("laptop", &[("eDP-1", 1280, 800)]);
    connect(&mut s, &laptop);
    s.focus_transferred(laptop.id, laptop.monitors[0].id);
    assert!(s.client_disconnected(laptop.id));
    assert!(!s.is_connected(laptop.id));
    assert_eq!(s.grid.monitors.len(), 1);
    assert!(s.grid.transitions.is_empty());
    assert_eq!(s.focus, Focus { machine_id: s.server_id, monitor_id: s.server_monitors[0].id, is_local: true });
    // A second disconnect of the same id changes nothing.
    assert!(!s.client_disconnected(laptop.id));
}

#[test]
fn ping_is_answered_and_clipboard_goes_to_the_others() {
    let mut s = server();
    let a = client("a", &[("A", 100, 100)]);
    let b = client("b", &[("B", 100, 100)]);
    let c = client("c", &[("C", 100, 100)]);
    connect(&mut s, &a);
    connect(&mut s, &b);
    connect(&mut s, &c);
    assert_eq!(s.handle_client_message(a.id, &Message::Ping), ServerAction::Pong { to: a.id });
    assert_eq!(s.handle_client_message(999, &Message::Ping), ServerAction::Nothing);
    assert_eq!(s.other_clients(b.id), vec![a.id, c.id]);
    let action = s.handle_client_message(b.id, &Message::Clipboard("copied".to_string()));
    assert_eq!(
        action,
        ServerAction::Broadcast { recipients: vec![a.id, c.id], content: "copied".to_string() }
    );
    assert_eq!(s.handle_client_message(a.id, &Message::Pong), ServerAction::Nothing);
}

#[test]
fn entry_points_sit_on_the_opposite_edge() {
    let target = monitor(1, "T", 1920, 1080);
    let half = EdgeRatio { numer: 1, denom: 2 };
    assert_eq!(compute_entry_point(GridEdge::Right, &target, half), (0, 540));
    assert_eq!(compute_entry_point(GridEdge::Left, &target, half), (1919, 540));
    assert_eq!(compute_entry_point(GridEdge::Bottom, &target, half), (960, 0));
    assert_eq!(compute_entry_point(GridEdge::Top, &target, half), (960, 1079));
    // The far end of an edge is the last row or column, on the target.
    let whole = EdgeRatio { numer: 1, denom: 1 };
    assert_eq!(compute_entry_point(GridEdge::Right, &target, whole), (0, 1079));
    assert_eq!(compute_entry_point(GridEdge::Bottom, &target, whole), (1919, 0));
    assert_eq!(compute_entry_point(GridEdge::Left, &target, EdgeRatio { numer: -1, denom: 2 }), (1919, 0));
    assert_eq!(edge_offset(0, half), 0);
}

#[test]
fn scaled_offsets_truncate_and_saturate() {
    assert_eq!(scale_offset(1080, EdgeRatio { numer: 1, denom: 3 }), 360);
    assert_eq!(scale_offset(1000, EdgeRatio { numer: 2, denom: 3 }), 666);
    assert_eq!(scale_offset(1000, EdgeRatio { numer: -2, denom: 3 }), -666);
    assert_eq!(scale_offset(1000, EdgeRatio { numer: 0, denom: 0 }), 0);
    assert_eq!(scale_offset(1000, EdgeRatio { numer: 1, denom: 0 }), i32::MAX);
    assert_eq!(scale_offset(1000, EdgeRatio { numer: -1, denom: 0 }), i32::MIN);
    assert_eq!(scale_offset(u32::MAX, EdgeRatio { numer: 2, denom: 1 }), i32::MAX);
}

#[test]
fn positions_within_bounds_spots_the_last_column() {
    let mut m = monitor(1, "A", 10, 10);
    m.grid_col = Some(u32::MAX);
    m.grid_row = Some(0);
    assert!(!positions_within_bounds(&vec![m.clone()]));
    m.grid_col = Some(7);
    assert!(positions_within_bounds(&vec![m]));
}

#[test]
fn admitted_machines_never_share_a_cell() {
    let mut s = server();
    connect(&mut s, &client("a", &[("A1", 100, 100), ("A2", 100, 100)]));
    connect(&mut s, &client("b", &[("B1", 100, 100)]));
    connect(&mut s, &client("a", &[("A1", 100, 100)]));
    let cells: Vec<(Option<u32>, Option<u32>)> = s.grid.monitors.iter().map(|m| (m.grid_col, m.grid_row)).collect();
    for i in 0..cells.len() {
        for j in 0..cells.len() {
            if i != j {
                assert_ne!(cells[i], cells[j]);
            }
        }
    }
    assert_eq!(cells.len(), 3);
}
