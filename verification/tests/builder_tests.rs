use monomouse::builder::{BuilderStatus, GridBuilder};
use monomouse::grid::{Grid, GridEdge};
use monomouse::monitor::Monitor;

fn mon(machine: u128, name: &str) -> Monitor {
    Monitor::new(machine, name.to_string(), 1920, 1080, 0, 0)
}

fn placed(machine: u128, name: &str, col: u32, row: u32) -> Monitor {
    let mut m = mon(machine, name);
    m.grid_col = Some(col);
    m.grid_row = Some(row);
    m
}

#[test]
fn new_builder_lists_local_monitors_not_in_the_grid() {
    let a = placed(1, "HDMI-1", 0, 0);
    let mut grid = Grid::new();
    grid.monitors.push(a.clone());
    // Same id as a placed monitor, same name as a grid monitor, and a new one.
    let mut same_id = mon(1, "other");
    same_id.id = a.id;
    let locals = vec![same_id, mon(1, "HDMI-1"), mon(1, "DP-3")];
    let b = GridBuilder::new(grid, locals);
    assert_eq!(b.unplaced.len(), 1);
    assert_eq!(b.unplaced[0].name, "DP-3");
    assert_eq!((b.cols, b.rows), (4, 2));
    assert_eq!(b.selected, None);
    assert!(matches!(b.status, BuilderStatus::Idle));
}

#[test]
fn grid_size_grows_with_the_placed_monitors() {
    let mut grid = Grid::new();
    grid.monitors.push(placed(1, "A", 5, 3));
    let b = GridBuilder::new(grid, vec![]);
    assert_eq!((b.cols, b.rows), (7, 5));
}

#[test]
fn target_is_the_selected_free_cell_or_the_first_free_one() {
    let mut grid = Grid::new();
    grid.monitors.push(placed(1, "A", 0, 0));
    grid.monitors.push(placed(1, "B", 1, 0));
    let mut b = GridBuilder::new(grid, vec![]);
    assert_eq!(b.target_cell(), Some((2, 0)));
    b.selected = Some((3, 1));
    assert_eq!(b.target_cell(), Some((3, 1)));
    b.selected = Some((1, 0));
    assert_eq!(b.target_cell(), Some((2, 0)));
    b.cols = 2;
    b.rows = 1;
    assert_eq!(b.target_cell(), None);
}

#[test]
fn placing_a_monitor_moves_it_onto_the_grid() {
    let local = mon(1, "DP-3");
    let id = local.id;
    let mut grid = Grid::new();
    grid.monitors.push(placed(1, "A", 0, 0));
    let mut b = GridBuilder::new(grid, vec![local.clone()]);
    b.place_monitor(&local);
    assert!(b.unplaced.is_empty());
    assert_eq!(b.grid.monitors.len(), 2);
    assert_eq!(b.grid.monitors[1].id, id);
    assert_eq!((b.grid.monitors[1].grid_col, b.grid.monitors[1].grid_row), (Some(1), Some(0)));
    assert_eq!(b.grid.transitions.len(), 2);
    match &b.status {
        BuilderStatus::Placed { name, col, row } => assert_eq!((name.as_str(), *col, *row), ("DP-3", 1, 0)),
        other => panic!("unexpected status {:?}", other),
    }
    assert_eq!(b.placed_count(), 2);
}

#[test]
fn placing_again_moves_the_monitor() {
    let local = mon(1, "DP-3");
    let mut b = GridBuilder::new(Grid::new(), vec![local.clone()]);
    b.place_monitor(&local);
    b.selected = Some((2, 1));
    b.place_monitor(&local);
    assert_eq!(b.grid.monitors.len(), 1);
    assert_eq!((b.grid.monitors[0].grid_col, b.grid.monitors[0].grid_row), (Some(2), Some(1)));
}

#[test]
fn a_full_grid_takes_nothing() {
    let mut grid = Grid::new();
    grid.monitors.push(placed(1, "A", 0, 0));
    let local = mon(1, "B");
    let mut b = GridBuilder::new(grid, vec![local.clone()]);
    b.cols = 1;
    b.rows = 1;
    b.place_monitor(&local);
    assert_eq!(b.unplaced.len(), 1);
    assert_eq!(b.grid.monitors.len(), 1);
    assert!(matches!(b.status, BuilderStatus::Idle));
}

#[test]
fn removing_the_selected_monitor_returns_it_unplaced() {
    let mut grid = Grid::new();
    grid.monitors.push(placed(1, "A", 0, 0));
    grid.monitors.push(placed(1, "B", 1, 0));
    grid.rebuild_transitions();
    let mut b = GridBuilder::new(grid, vec![]);
    b.selected = Some((1, 0));
    b.remove_selected();
    assert_eq!(b.grid.monitors.len(), 1);
    assert!(b.grid.transitions.is_empty());
    assert_eq!(b.unplaced.len(), 1);
    assert_eq!(b.unplaced[0].name, "B");
    assert_eq!((b.unplaced[0].grid_col, b.unplaced[0].grid_row), (None, None));
    assert_eq!(b.selected, None);
    // An empty cell: nothing happens.
    b.selected = Some((3, 1));
    b.remove_selected();
    assert_eq!(b.grid.monitors.len(), 1);
    assert_eq!(b.selected, Some((3, 1)));
}

#[test]
fn pending_monitors_include_grid_monitors_without_a_cell() {
    let mut grid = Grid::new();
    grid.monitors.push(placed(1, "A", 0, 0));
    grid.monitors.push(mon(2, "loose"));
    let b = GridBuilder::new(grid, vec![mon(1, "local")]);
    let names: Vec<String> = b.pending_monitors().into_iter().map(|m| m.name).collect();
    assert_eq!(names, vec!["local".to_string(), "loose".to_string()]);
    assert_eq!(b.placed_count(), 1);
}

#[test]
fn rebuild_and_save_report_in_the_status() {
    let mut grid = Grid::new();
    let a = placed(1, "A", 0, 0);
    let ia = a.id;
    grid.monitors.push(a);
    grid.monitors.push(placed(1, "B", 0, 1));
    let mut b = GridBuilder::new(grid, vec![]);
    b.rebuild();
    assert!(matches!(b.status, BuilderStatus::Rebuilt { count: 2 }));
    let out = b.outgoing(ia);
    assert_eq!(out, vec![(GridEdge::Bottom, Some("B".to_string()))]);
    assert!(b.outgoing(999).is_empty());
    b.record_save(Ok(()));
    assert!(matches!(b.status, BuilderStatus::Saved));
    b.record_save(Err("disk full".to_string()));
    assert!(matches!(&b.status, BuilderStatus::SaveFailed(e) if e == "disk full"));
}
