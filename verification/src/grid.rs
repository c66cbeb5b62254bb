//! The global grid that places the monitors of all machines, and the edge
//! transitions between adjacent monitors.

use vstd::prelude::*;
use crate::monitor::Monitor;
use crate::machine::copy_monitors;

verus! {

/// Why a grid operation was refused.
#[derive(Debug, Clone, Copy, PartialEq, Eq, Structural)]
pub enum GridError {
    /// No monitor with this id is in the grid.
    MonitorNotFound(u128),
    /// The grid position is already occupied.
    PositionOccupied { col: u32, row: u32 },
}

/// Which edge of a monitor the cursor is leaving from.
#[derive(Debug, Clone, Copy, PartialEq, Eq, Structural)]
pub enum GridEdge {
    Top,
    Bottom,
    Left,
    Right,
}

/// A position along an edge as the ratio `numer / denom`
/// (0 = top/left end, 1 = bottom/right end).
#[derive(Debug, Clone, Copy, PartialEq, Eq, Structural)]
pub struct EdgeRatio {
    pub numer: i32,
    pub denom: i32,
}

impl EdgeRatio {
    /// The start of an edge: 0 / 1.
    pub open spec fn spec_start() -> EdgeRatio {
        EdgeRatio { numer: 0, denom: 1 }
    }

    /// The start of an edge: 0 / 1.
    pub fn start() -> (r: EdgeRatio)
        ensures
            r == EdgeRatio::spec_start(),
    {
        EdgeRatio { numer: 0, denom: 1 }
    }
}

/// A transition from one monitor to another.
#[derive(Debug, Clone, Copy, PartialEq, Eq, Structural)]
pub struct EdgeTransition {
    pub from_monitor: u128,
    pub from_edge: GridEdge,
    pub to_monitor: u128,
    pub to_machine: u128,
    /// Where on the target monitor the cursor should enter.
    pub position_ratio: EdgeRatio,
}

/// The global grid that maps all monitors across all machines.
#[derive(Debug)]
pub struct Grid {
    pub monitors: Vec<Monitor>,
    pub transitions: Vec<EdgeTransition>,
}

/// Whether a monitor is placed at the grid cell `(col, row)`.
pub open spec fn at_cell(m: Monitor, col: int, row: int) -> bool {
    &&& m.grid_col matches Some(c) && c == col
    &&& m.grid_row matches Some(r) && r == row
}

/// Whether some monitor of `ms` is placed at `(col, row)`.
pub open spec fn occupied(ms: Seq<Monitor>, col: int, row: int) -> bool {
    exists|i: int| 0 <= i < ms.len() && at_cell(#[trigger] ms[i], col, row)
}

/// The first monitor of `ms` placed at `(col, row)`, if any.
pub open spec fn first_at(ms: Seq<Monitor>, col: int, row: int) -> Option<Monitor>
    decreases ms.len(),
{
    if ms.len() == 0 {
        None
    } else {
        match first_at(ms.drop_last(), col, row) {
            Some(m) => Some(m),
            None => if at_cell(ms.last(), col, row) {
                Some(ms.last())
            } else {
                None
            },
        }
    }
}

/// The transition from `m` over `edge` to the first monitor of `ms` at
/// `(col, row)`, as a sequence of at most one element.
pub open spec fn link(m: Monitor, edge: GridEdge, ms: Seq<Monitor>, col: int, row: int) -> Seq<EdgeTransition> {
    match first_at(ms, col, row) {
        Some(n) => seq![EdgeTransition {
            from_monitor: m.id,
            from_edge: edge,
            to_monitor: n.id,
            to_machine: n.machine_id,
            position_ratio: EdgeRatio::spec_start(),
        }],
        None => seq![],
    }
}

/// The transitions leaving `m`, in the order right, left, bottom, top; a
/// monitor without a grid position has none, and there is no left (top)
/// neighbour in column (row) 0.
pub open spec fn transitions_from(m: Monitor, ms: Seq<Monitor>) -> Seq<EdgeTransition> {
    match (m.grid_col, m.grid_row) {
        (Some(c), Some(r)) => {
            link(m, GridEdge::Right, ms, c + 1, r as int)
            + (if c > 0 { link(m, GridEdge::Left, ms, c - 1, r as int) } else { seq![] })
            + link(m, GridEdge::Bottom, ms, c as int, r + 1)
            + (if r > 0 { link(m, GridEdge::Top, ms, c as int, r - 1) } else { seq![] })
        },
        _ => seq![],
    }
}

/// The transitions of the monitors of `prefix`, taken in order, with
/// neighbours looked up in `ms`.
pub open spec fn transitions_of(prefix: Seq<Monitor>, ms: Seq<Monitor>) -> Seq<EdgeTransition>
    decreases prefix.len(),
{
    if prefix.len() == 0 {
        seq![]
    } else {
        transitions_of(prefix.drop_last(), ms) + transitions_from(prefix.last(), ms)
    }
}

/// The transitions that `rebuild_transitions` derives from the monitors.
pub open spec fn grid_transitions(ms: Seq<Monitor>) -> Seq<EdgeTransition> {
    transitions_of(ms, ms)
}

/// No placed monitor sits in the last column or row, so that the neighbour
/// cells `col + 1` and `row + 1` can be computed in `u32`.
pub open spec fn positions_bounded(ms: Seq<Monitor>) -> bool {
    forall|i: int|
        0 <= i < ms.len() && (#[trigger] ms[i]).grid_col is Some && ms[i].grid_row is Some
            ==> ms[i].grid_col->0 < u32::MAX && ms[i].grid_row->0 < u32::MAX
}

/// The first transition of `ts` leaving `monitor` over `edge`, if any.
pub open spec fn first_transition(ts: Seq<EdgeTransition>, monitor: u128, edge: GridEdge) -> Option<EdgeTransition>
    decreases ts.len(),
{
    if ts.len() == 0 {
        None
    } else {
        match first_transition(ts.drop_last(), monitor, edge) {
            Some(t) => Some(t),
            None => if ts.last().from_monitor == monitor && ts.last().from_edge == edge {
                Some(ts.last())
            } else {
                None
            },
        }
    }
}

/// The first monitor of `ms` with id `id`, if any.
pub open spec fn monitor_with_id(ms: Seq<Monitor>, id: u128) -> Option<Monitor>
    decreases ms.len(),
{
    if ms.len() == 0 {
        None
    } else {
        match monitor_with_id(ms.drop_last(), id) {
            Some(m) => Some(m),
            None => if ms.last().id == id {
                Some(ms.last())
            } else {
                None
            },
        }
    }
}

/// `first_at` is `Some` exactly when the cell is occupied, and then it is
/// the monitor at the least index placed there.
pub proof fn lemma_first_at(ms: Seq<Monitor>, col: int, row: int)
    ensures
        first_at(ms, col, row) is Some <==> occupied(ms, col, row),
        first_at(ms, col, row) matches Some(m) ==> exists|i: int|
            0 <= i < ms.len() && ms[i] == m && at_cell(m, col, row)
                && forall|j: int| 0 <= j < i ==> !at_cell(#[trigger] ms[j], col, row),
    decreases ms.len(),
{
    if ms.len() > 0 {
        let p = ms.drop_last();
        lemma_first_at(p, col, row);
        if occupied(ms, col, row) && !occupied(p, col, row) {
            let i = choose|i: int| 0 <= i < ms.len() && at_cell(#[trigger] ms[i], col, row);
            if i < ms.len() - 1 {
                assert(p[i] == ms[i]);
            }
        }
        if occupied(p, col, row) {
            let i = choose|i: int| 0 <= i < p.len() && at_cell(#[trigger] p[i], col, row);
            assert(ms[i] == p[i]);
        }
        if first_at(p, col, row) is Some {
            let m = first_at(p, col, row)->0;
            let i = choose|i: int|
                0 <= i < p.len() && p[i] == m && at_cell(m, col, row)
                    && forall|j: int| 0 <= j < i ==> !at_cell(#[trigger] p[j], col, row);
            assert(ms[i] == p[i]);
            assert forall|j: int| 0 <= j < i implies !at_cell(#[trigger] ms[j], col, row) by {
                assert(ms[j] == p[j]);
            }
        } else if at_cell(ms.last(), col, row) {
            let i = ms.len() - 1;
            assert forall|j: int| 0 <= j < i implies !at_cell(#[trigger] ms[j], col, row) by {
                assert(ms[j] == p[j]);
                if at_cell(ms[j], col, row) {
                    assert(occupied(p, col, row));
                }
            }
        }
    }
}

/// Taking one more element of `ms` adds that element's contribution.
proof fn lemma_first_at_take(ms: Seq<Monitor>, i: int, col: int, row: int)
    requires
        0 <= i < ms.len(),
    ensures
        first_at(ms.take(i + 1), col, row) == (match first_at(ms.take(i), col, row) {
            Some(m) => Some(m),
            None => if at_cell(ms[i], col, row) { Some(ms[i]) } else { None },
        }),
{
    assert(ms.take(i + 1).drop_last() =~= ms.take(i));
}

proof fn lemma_monitor_with_id_take(ms: Seq<Monitor>, i: int, id: u128)
    requires
        0 <= i < ms.len(),
    ensures
        monitor_with_id(ms.take(i + 1), id) == (match monitor_with_id(ms.take(i), id) {
            Some(m) => Some(m),
            None => if ms[i].id == id { Some(ms[i]) } else { None },
        }),
{
    assert(ms.take(i + 1).drop_last() =~= ms.take(i));
}

proof fn lemma_first_transition_take(ts: Seq<EdgeTransition>, i: int, monitor: u128, edge: GridEdge)
    requires
        0 <= i < ts.len(),
    ensures
        first_transition(ts.take(i + 1), monitor, edge) == (match first_transition(ts.take(i), monitor, edge) {
            Some(t) => Some(t),
            None => if ts[i].from_monitor == monitor && ts[i].from_edge == edge {
                Some(ts[i])
            } else {
                None
            },
        }),
{
    assert(ts.take(i + 1).drop_last() =~= ts.take(i));
}

/// The first monitor of `ms` with the given id.
pub fn find_monitor(ms: &Vec<Monitor>, id: u128) -> (r: Option<&Monitor>)
    ensures
        match r {
            Some(m) => monitor_with_id(ms@, id) == Some(*m),
            None => monitor_with_id(ms@, id) is None,
        },
{
    let mut i: usize = 0;
    while i < ms.len()
        invariant
            i <= ms.len(),
            monitor_with_id(ms@.take(i as int), id) is None,
        decreases ms.len() - i,
    {
        proof {
            lemma_monitor_with_id_take(ms@, i as int, id);
        }
        if ms[i].id == id {
            assert(monitor_with_id(ms@.take(i + 1), id) == Some(ms@[i as int]));
            assert(ms@.take(ms@.len() as int) =~= ms@);
            proof {
                lemma_monitor_with_id_prefix(ms@, i + 1, id);
            }
            return Some(&ms[i]);
        }
        i += 1;
    }
    assert(ms@.take(ms@.len() as int) =~= ms@);
    None
}

/// Once a prefix has a monitor with the id, the whole sequence has that one.
proof fn lemma_monitor_with_id_prefix(ms: Seq<Monitor>, k: int, id: u128)
    requires
        0 <= k <= ms.len(),
        monitor_with_id(ms.take(k), id) is Some,
    ensures
        monitor_with_id(ms, id) == monitor_with_id(ms.take(k), id),
    decreases ms.len() - k,
{
    if k < ms.len() {
        lemma_monitor_with_id_take(ms, k, id);
        lemma_monitor_with_id_prefix(ms, k + 1, id);
    } else {
        assert(ms.take(k) =~= ms);
    }
}

/// Once a prefix has a monitor at the cell, the whole sequence has that one.
proof fn lemma_first_at_prefix(ms: Seq<Monitor>, k: int, col: int, row: int)
    requires
        0 <= k <= ms.len(),
        first_at(ms.take(k), col, row) is Some,
    ensures
        first_at(ms, col, row) == first_at(ms.take(k), col, row),
    decreases ms.len() - k,
{
    if k < ms.len() {
        lemma_first_at_take(ms, k, col, row);
        lemma_first_at_prefix(ms, k + 1, col, row);
    } else {
        assert(ms.take(k) =~= ms);
    }
}

proof fn lemma_first_transition_prefix(ts: Seq<EdgeTransition>, k: int, monitor: u128, edge: GridEdge)
    requires
        0 <= k <= ts.len(),
        first_transition(ts.take(k), monitor, edge) is Some,
    ensures
        first_transition(ts, monitor, edge) == first_transition(ts.take(k), monitor, edge),
    decreases ts.len() - k,
{
    if k < ts.len() {
        lemma_first_transition_take(ts, k, monitor, edge);
        lemma_first_transition_prefix(ts, k + 1, monitor, edge);
    } else {
        assert(ts.take(k) =~= ts);
    }
}

impl Clone for Grid {
    fn clone(&self) -> (r: Self)
        ensures
            r.monitors@ == self.monitors@,
            r.transitions@ == self.transitions@,
    {
        let mut transitions: Vec<EdgeTransition> = Vec::new();
        let mut i: usize = 0;
        while i < self.transitions.len()
            invariant
                i <= self.transitions@.len(),
                transitions@ == self.transitions@.take(i as int),
            decreases self.transitions.len() - i,
        {
            transitions.push(self.transitions[i]);
            assert(transitions@ =~= self.transitions@.take(i + 1));
            i += 1;
        }
        assert(self.transitions@.take(self.transitions@.len() as int) =~= self.transitions@);
        Grid { monitors: copy_monitors(&self.monitors), transitions }
    }
}

impl Grid {
    /// An empty grid.
    pub fn new() -> (g: Self)
        ensures
            g.monitors@.len() == 0,
            g.transitions@.len() == 0,
    {
        Grid { monitors: Vec::new(), transitions: Vec::new() }
    }

    /// Find the monitor at a given grid position: the first one placed there.
    pub fn monitor_at(&self, col: u32, row: u32) -> (r: Option<&Monitor>)
        ensures
            match r {
                Some(m) => first_at(self.monitors@, col as int, row as int) == Some(*m),
                None => first_at(self.monitors@, col as int, row as int) is None,
            },
    {
        let mut i: usize = 0;
        while i < self.monitors.len()
            invariant
                i <= self.monitors.len(),
                first_at(self.monitors@.take(i as int), col as int, row as int) is None,
            decreases self.monitors.len() - i,
        {
            proof {
                lemma_first_at_take(self.monitors@, i as int, col as int, row as int);
            }
            let m = &self.monitors[i];
            if m.grid_col == Some(col) && m.grid_row == Some(row) {
                proof {
                    lemma_first_at_prefix(self.monitors@, i + 1, col as int, row as int);
                }
                return Some(m);
            }
            i += 1;
        }
        assert(self.monitors@.take(self.monitors@.len() as int) =~= self.monitors@);
        None
    }

    /// Add a monitor to the grid at a specific grid position. Refused when a
    /// monitor already sits there; the grid is then left unchanged.
    pub fn place_monitor(&mut self, monitor: Monitor, col: u32, row: u32) -> (r: Result<(), GridError>)
        ensures
            occupied(old(self).monitors@, col as int, row as int) ==> {
                &&& r == Err::<(), GridError>(GridError::PositionOccupied { col, row })
                &&& final(self).monitors@ == old(self).monitors@
            },
            !occupied(old(self).monitors@, col as int, row as int) ==> {
                &&& r is Ok
                &&& final(self).monitors@ == old(self).monitors@.push(Monitor {
                    grid_col: Some(col),
                    grid_row: Some(row),
                    ..monitor
                })
            },
            final(self).transitions@ == old(self).transitions@,
    {
        proof {
            lemma_first_at(self.monitors@, col as int, row as int);
        }
        if self.monitor_at(col, row).is_some() {
            return Err(GridError::PositionOccupied { col, row });
        }
        let mut monitor = monitor;
        monitor.grid_col = Some(col);
        monitor.grid_row = Some(row);
        self.monitors.push(monitor);
        Ok(())
    }

    /// The transition leaving `m` over `edge` towards the first monitor at
    /// `(col, row)`, appended to the transitions when that cell is occupied.
    fn push_link(&mut self, from: u128, edge: GridEdge, col: u32, row: u32, Ghost(m): Ghost<Monitor>)
        requires
            m.id == from,
        ensures
            final(self).monitors@ == old(self).monitors@,
            final(self).transitions@ == old(self).transitions@ + link(
                m,
                edge,
                old(self).monitors@,
                col as int,
                row as int,
            ),
    {
        let target = match self.monitor_at(col, row) {
            Some(n) => Some((n.id, n.machine_id)),
            None => None,
        };
        if let Some((to_monitor, to_machine)) = target {
            self.transitions.push(EdgeTransition {
                from_monitor: from,
                from_edge: edge,
                to_monitor,
                to_machine,
                position_ratio: EdgeRatio::start(),
            });
        }
        assert(self.transitions@ =~= old(self).transitions@ + link(
            m,
            edge,
            old(self).monitors@,
            col as int,
            row as int,
        ));
    }

    /// Rebuild the edge transitions from grid adjacency: monitors that are
    /// adjacent in the grid (horizontally or vertically) get transitions
    /// between them.
    pub fn rebuild_transitions(&mut self)
        requires
            positions_bounded(old(self).monitors@),
        ensures
            final(self).monitors@ == old(self).monitors@,
            final(self).transitions@ == grid_transitions(old(self).monitors@),
    {
        self.transitions.clear();
        let ghost ms = self.monitors@;
        let mut i: usize = 0;
        while i < self.monitors.len()
            invariant
                self.monitors@ == ms,
                positions_bounded(ms),
                i <= ms.len(),
                self.transitions@ == transitions_of(ms.take(i as int), ms),
            decreases ms.len() - i,
        {
            let id = self.monitors[i].id;
            let pos = (self.monitors[i].grid_col, self.monitors[i].grid_row);
            let ghost m = ms[i as int];
            let ghost before = self.transitions@;
            assert(ms.take(i + 1).drop_last() =~= ms.take(i as int));
            assert(ms.take(i + 1).last() == m);
            match pos {
                (Some(col), Some(row)) => {
                    assert(ms[i as int].grid_col is Some);
                    self.push_link(id, GridEdge::Right, col + 1, row, Ghost(m));
                    if col > 0 {
                        self.push_link(id, GridEdge::Left, col - 1, row, Ghost(m));
                    }
                    self.push_link(id, GridEdge::Bottom, col, row + 1, Ghost(m));
                    if row > 0 {
                        self.push_link(id, GridEdge::Top, col, row - 1, Ghost(m));
                    }
                    assert(self.transitions@ =~= before + transitions_from(m, ms));
                },
                _ => {
                    assert(transitions_from(m, ms) =~= seq![]);
                    assert(self.transitions@ =~= before + transitions_from(m, ms));
                },
            }
            i += 1;
        }
        assert(ms.take(ms.len() as int) =~= ms);
    }

    /// Find the transition for a cursor leaving a specific monitor from a
    /// specific edge: the first one recorded.
    pub fn find_transition(&self, monitor_id: u128, edge: GridEdge) -> (r: Option<&EdgeTransition>)
        ensures
            match r {
                Some(t) => first_transition(self.transitions@, monitor_id, edge) == Some(*t),
                None => first_transition(self.transitions@, monitor_id, edge) is None,
            },
    {
        let mut i: usize = 0;
        while i < self.transitions.len()
            invariant
                i <= self.transitions.len(),
                first_transition(self.transitions@.take(i as int), monitor_id, edge) is None,
            decreases self.transitions.len() - i,
        {
            proof {
                lemma_first_transition_take(self.transitions@, i as int, monitor_id, edge);
            }
            let t = &self.transitions[i];
            if t.from_monitor == monitor_id && t.from_edge == edge {
                proof {
                    lemma_first_transition_prefix(self.transitions@, i + 1, monitor_id, edge);
                }
                return Some(t);
            }
            i += 1;
        }
        assert(self.transitions@.take(self.transitions@.len() as int) =~= self.transitions@);
        None
    }
}

} // verus!
