use monomouse::grid::{find_monitor, Grid, GridEdge, GridError};
use monomouse::machine::copy_monitors;
use monomouse::monitor::{Monitor, UNIT_SCALE};

fn new_id() -> u128 {
    uuid::Uuid::new_v4().as_u128()
}

fn make_monitor(machine_id: u128, name: &str) -> Monitor {
    Monitor::new(machine_id, name.to_string(), 1920, 1080, 0, 0)
}

#[test]
fn test_place_and_find_monitors() {
    let mut grid = Grid::new();
    let machine_a = new_id();
    let machine_b = new_id();

    let mon1 = make_monitor(machine_a, "HDMI-1");
    let mon2 = make_monitor(machine_b, "DP-1");

    grid.place_monitor(mon1.clone(), 0, 0).unwrap();
    grid.place_monitor(mon2.clone(), 1, 0).unwrap();

    assert!(grid.monitor_at(0, 0).is_some());
    assert!(grid.monitor_at(1, 0).is_some());
    assert!(grid.monitor_at(2, 0).is_none());
}

#[test]
fn test_rebuild_transitions() {
    let mut grid = Grid::new();
    let machine_a = new_id();
    let machine_b = new_id();

    let mon1 = make_monitor(machine_a, "HDMI-1");
    let mon1_id = mon1.id;
    let mon2 = make_monitor(machine_b, "DP-1");
    let mon2_id = mon2.id;

    grid.place_monitor(mon1, 0, 0).unwrap();
    grid.place_monitor(mon2, 1, 0).unwrap();
    grid.rebuild_transitions();

    // mon1 right -> mon2
    let t = grid.find_transition(mon1_id, GridEdge::Right);
    assert!(t.is_some());
    assert_eq!(t.unwrap().to_monitor, mon2_id);

    // mon2 left -> mon1
    let t = grid.find_transition(mon2_id, GridEdge::Left);
    assert!(t.is_some());
    assert_eq!(t.unwrap().to_monitor, mon1_id);

    // No vertical transitions
    assert!(grid.find_transition(mon1_id, GridEdge::Top).is_none());
    assert!(grid.find_transition(mon1_id, GridEdge::Bottom).is_none());
}

#[test]
fn test_position_occupied() {
    let mut grid = Grid::new();
    let machine = new_id();
    let mon1 = make_monitor(machine, "HDMI-1");
    let mon2 = make_monitor(machine, "HDMI-2");

    grid.place_monitor(mon1, 0, 0).unwrap();
    assert!(grid.place_monitor(mon2, 0, 0).is_err());
}

#[test]
fn occupied_position_is_reported_and_grid_unchanged() {
    let mut grid = Grid::new();
    let m1 = make_monitor(1, "A");
    let m2 = make_monitor(1, "B");
    grid.place_monitor(m1, 3, 4).unwrap();
    assert_eq!(grid.place_monitor(m2, 3, 4), Err(GridError::PositionOccupied { col: 3, row: 4 }));
    assert_eq!(grid.monitors.len(), 1);
    assert_eq!(grid.monitors[0].name, "A");
}

#[test]
fn placed_monitor_takes_its_cell_and_is_found_there() {
    let mut grid = Grid::new();
    let m = make_monitor(7, "eDP-1");
    let id = m.id;
    grid.place_monitor(m, 2, 5).unwrap();
    let found = grid.monitor_at(2, 5).unwrap();
    assert_eq!(found.id, id);
    assert_eq!(found.grid_col, Some(2));
    assert_eq!(found.grid_row, Some(5));
    assert!(grid.monitor_at(5, 2).is_none());
}

#[test]
fn transitions_link_neighbours_both_ways_in_a_square() {
    // Four monitors in a 2x2 square: each has exactly two neighbours.
    let mut grid = Grid::new();
    let a = make_monitor(1, "A");
    let b = make_monitor(1, "B");
    let c = make_monitor(2, "C");
    let d = make_monitor(2, "D");
    let (ia, ib, ic, id) = (a.id, b.id, c.id, d.id);
    grid.place_monitor(a, 0, 0).unwrap();
    grid.place_monitor(b, 1, 0).unwrap();
    grid.place_monitor(c, 0, 1).unwrap();
    grid.place_monitor(d, 1, 1).unwrap();
    grid.rebuild_transitions();
    assert_eq!(grid.transitions.len(), 8);
    assert_eq!(grid.find_transition(ia, GridEdge::Right).unwrap().to_monitor, ib);
    assert_eq!(grid.find_transition(ia, GridEdge::Bottom).unwrap().to_monitor, ic);
    assert_eq!(grid.find_transition(ic, GridEdge::Top).unwrap().to_monitor, ia);
    assert_eq!(grid.find_transition(id, GridEdge::Left).unwrap().to_monitor, ic);
    assert_eq!(grid.find_transition(id, GridEdge::Top).unwrap().to_monitor, ib);
    assert_eq!(grid.find_transition(ib, GridEdge::Bottom).unwrap().to_machine, 2);
    assert!(grid.find_transition(ia, GridEdge::Left).is_none());
    assert!(grid.find_transition(ia, GridEdge::Top).is_none());
}

#[test]
fn transitions_start_at_the_beginning_of_the_edge() {
    let mut grid = Grid::new();
    let a = make_monitor(1, "A");
    let b = make_monitor(1, "B");
    let ia = a.id;
    grid.place_monitor(a, 0, 0).unwrap();
    grid.place_monitor(b, 0, 1).unwrap();
    grid.rebuild_transitions();
    let t = grid.find_transition(ia, GridEdge::Bottom).unwrap();
    assert_eq!(t.position_ratio.numer, 0);
    assert_eq!(t.position_ratio.denom, 1);
}

#[test]
fn rebuilding_twice_gives_the_same_transitions() {
    let mut grid = Grid::new();
    grid.place_monitor(make_monitor(1, "A"), 0, 0).unwrap();
    grid.place_monitor(make_monitor(1, "B"), 1, 0).unwrap();
    grid.rebuild_transitions();
    let first = grid.transitions.clone();
    grid.rebuild_transitions();
    assert_eq!(first, grid.transitions);
}

#[test]
fn unplaced_monitor_gets_no_transition() {
    let mut grid = Grid::new();
    let a = make_monitor(1, "A");
    let ia = a.id;
    grid.place_monitor(a, 0, 0).unwrap();
    grid.monitors.push(make_monitor(1, "loose"));
    grid.rebuild_transitions();
    assert!(grid.transitions.is_empty());
    assert!(grid.find_transition(ia, GridEdge::Right).is_none());
}

#[test]
fn find_monitor_gives_the_first_with_the_id() {
    let a = make_monitor(1, "A");
    let id = a.id;
    let ms = vec![make_monitor(1, "B"), a.clone(), a];
    let found = find_monitor(&ms, id).unwrap();
    assert_eq!(found.name, "A");
    assert!(find_monitor(&ms, 12345).is_none());
}

#[test]
fn monitor_new_bounds_and_contains() {
    let m = Monitor::new(9, "DP-2".to_string(), 1920, 1080, 100, -50);
    assert_eq!(m.machine_id, 9);
    assert_eq!(m.scale_milli, UNIT_SCALE);
    assert_eq!(m.grid_col, None);
    assert_eq!(m.bounds(), (100, -50, 2020, 1030));
    assert!(m.contains(100, -50));
    assert!(m.contains(2019, 1029));
    assert!(!m.contains(2020, 0));
    assert!(!m.contains(99, 0));
    assert!(!m.contains(500, 1030));
}

#[test]
fn fresh_monitors_get_distinct_ids() {
    let a = make_monitor(1, "A");
    let b = make_monitor(1, "A");
    assert_ne!(a.id, b.id);
}

#[test]
fn grid_clone_keeps_contents() {
    let mut grid = Grid::new();
    grid.place_monitor(make_monitor(1, "A"), 0, 0).unwrap();
    grid.place_monitor(make_monitor(1, "B"), 1, 0).unwrap();
    grid.rebuild_transitions();
    let copy = grid.clone();
    assert_eq!(copy.monitors, grid.monitors);
    assert_eq!(copy.transitions, grid.transitions);
    assert_eq!(copy_monitors(&grid.monitors), grid.monitors);
}

#[test]
fn transitions_pair_up_and_leave_each_edge_once() {
    let mut grid = Grid::new();
    let names = ["A", "B", "C", "D", "E"];
    let cells = [(0, 0), (1, 0), (2, 0), (1, 1), (2, 1)];
    for (n, (c, r)) in names.iter().zip(cells.iter()) {
        grid.place_monitor(make_monitor(1, n), *c, *r).unwrap();
    }
    grid.rebuild_transitions();
    let ts = &grid.transitions;
    for (i, t) in ts.iter().enumerate() {
        for (j, u) in ts.iter().enumerate() {
            if i != j {
                assert!(!(t.from_monitor == u.from_monitor && t.from_edge == u.from_edge));
            }
        }
        let back = match t.from_edge {
            GridEdge::Right => GridEdge::Left,
            GridEdge::Left => GridEdge::Right,
            GridEdge::Bottom => GridEdge::Top,
            GridEdge::Top => GridEdge::Bottom,
        };
        assert!(ts.iter().any(|u| u.from_monitor == t.to_monitor && u.from_edge == back && u.to_monitor == t.from_monitor));
    }
    assert_eq!(ts.len(), 10);
}
