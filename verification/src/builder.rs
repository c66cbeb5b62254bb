//! The grid builder: the state behind the editor in which the user places
//! the monitors of all machines on the grid. The window, its panels and the
//! clicks are the caller's part; here stand the decisions they lead to.

use vstd::prelude::*;
use crate::grid::{
    find_monitor, first_at, grid_transitions, lemma_first_at, monitor_with_id, occupied, positions_bounded, Grid,
    EdgeTransition, GridEdge,
};
use crate::monitor::Monitor;
use crate::server::{lemma_max_col_bounds, max_col, max_grid_col};
use crate::grid::at_cell;
use crate::grid_laws::law_placed_monitor_found;

verus! {

/// What the editor last reports in its status line.
#[derive(Debug)]
pub enum BuilderStatus {
    /// Nothing to report.
    Idle,
    /// A monitor was placed at a cell.
    Placed { name: String, col: u32, row: u32 },
    /// The configuration was saved.
    Saved,
    /// Saving the configuration failed, for the reason given.
    SaveFailed(String),
    /// The transitions were rebuilt; this many exist now.
    Rebuilt { count: usize },
}

/// The editor's state: the grid being built, the monitors not placed on it
/// yet, the size of the grid shown, the selected cell and the status line.
#[derive(Debug)]
pub struct GridBuilder {
    pub grid: Grid,
    pub unplaced: Vec<Monitor>,
    pub cols: u32,
    pub rows: u32,
    pub selected: Option<(u32, u32)>,
    pub status: BuilderStatus,
}

/// Whether a monitor has both a column and a row.
pub open spec fn is_placed(m: Monitor) -> bool {
    m.grid_col is Some && m.grid_row is Some
}

/// Whether a placed monitor of `ms` has the id `id`.
pub open spec fn placed_with_id(ms: Seq<Monitor>, id: u128) -> bool {
    exists|i: int| 0 <= i < ms.len() && is_placed(#[trigger] ms[i]) && ms[i].id == id
}

/// Whether a monitor of `ms` has the name `name`.
pub open spec fn has_name(ms: Seq<Monitor>, name: Seq<char>) -> bool {
    exists|i: int| 0 <= i < ms.len() && (#[trigger] ms[i]).name@ == name
}

/// The local monitors the editor lists as not placed: those not placed in
/// the grid under their id, and whose name no monitor of the grid has.
pub open spec fn newly_unplaced(ms: Seq<Monitor>, locals: Seq<Monitor>) -> Seq<Monitor>
    decreases locals.len(),
{
    if locals.len() == 0 {
        seq![]
    } else {
        let p = newly_unplaced(ms, locals.drop_last());
        let m = locals.last();
        if !placed_with_id(ms, m.id) && !has_name(ms, m.name@) {
            p.push(m)
        } else {
            p
        }
    }
}

/// The largest grid row of the monitors that have one, 0 if none has.
pub open spec fn max_row(ms: Seq<Monitor>) -> int
    decreases ms.len(),
{
    if ms.len() == 0 {
        0
    } else {
        let p = max_row(ms.drop_last());
        match ms.last().grid_row {
            Some(r) => if r > p { r as int } else { p },
            None => p,
        }
    }
}

/// The greater of two integers.
pub open spec fn spec_max(a: int, b: int) -> int {
    if a >= b { a } else { b }
}

/// The monitors of `ms` without those with the id `id`.
pub open spec fn without_id(ms: Seq<Monitor>, id: u128) -> Seq<Monitor>
    decreases ms.len(),
{
    if ms.len() == 0 {
        seq![]
    } else if ms.last().id == id {
        without_id(ms.drop_last(), id)
    } else {
        without_id(ms.drop_last(), id).push(ms.last())
    }
}

/// The monitors of the grid that lack a column or a row.
pub open spec fn not_placed(ms: Seq<Monitor>) -> Seq<Monitor>
    decreases ms.len(),
{
    if ms.len() == 0 {
        seq![]
    } else if !is_placed(ms.last()) {
        not_placed(ms.drop_last()).push(ms.last())
    } else {
        not_placed(ms.drop_last())
    }
}

/// How many monitors of `ms` have a column.
pub open spec fn count_with_col(ms: Seq<Monitor>) -> nat
    decreases ms.len(),
{
    if ms.len() == 0 {
        0
    } else if ms.last().grid_col is Some {
        count_with_col(ms.drop_last()) + 1
    } else {
        count_with_col(ms.drop_last())
    }
}

/// Cell `(c2, r2)` comes before cell `(c, r)` when the cells of a grid
/// `cols` wide are read row by row.
pub open spec fn comes_before(c2: int, r2: int, c: int, r: int, cols: int) -> bool {
    ||| 0 <= r2 < r && 0 <= c2 < cols
    ||| r2 == r && 0 <= c2 < c
}

/// `(c, r)` is the first free cell of a grid `cols` by `rows`, read row by
/// row.
pub open spec fn is_first_free(ms: Seq<Monitor>, cols: int, rows: int, c: int, r: int) -> bool {
    &&& 0 <= c < cols
    &&& 0 <= r < rows
    &&& !occupied(ms, c, r)
    &&& forall|c2: int, r2: int| comes_before(c2, r2, c, r, cols) ==> #[trigger] occupied(ms, c2, r2)
}

/// The selected cell, when one is selected and it is free.
pub open spec fn free_selection(b: GridBuilder) -> Option<(u32, u32)> {
    match b.selected {
        Some(cell) => if !occupied(b.grid.monitors@, cell.0 as int, cell.1 as int) {
            Some(cell)
        } else {
            None
        },
        None => None,
    }
}

/// Where the next monitor goes: the selected cell if it is free, else the
/// first free cell read row by row, if any.
pub open spec fn spec_target(b: GridBuilder) -> Option<(u32, u32)> {
    let ms = b.grid.monitors@;
    if free_selection(b) is Some {
        free_selection(b)
    } else if exists|c: u32, r: u32| is_first_free(ms, b.cols as int, b.rows as int, c as int, r as int) {
        Some(choose|c: u32, r: u32| is_first_free(ms, b.cols as int, b.rows as int, c as int, r as int))
    } else {
        None
    }
}

/// The monitor as placed at `(col, row)`.
pub open spec fn placed_at(m: Monitor, col: u32, row: u32) -> Monitor {
    Monitor { grid_col: Some(col), grid_row: Some(row), ..m }
}

/// The monitor taken off the grid.
pub open spec fn taken_off(m: Monitor) -> Monitor {
    Monitor { grid_col: None, grid_row: None, ..m }
}

/// The transitions of `ts` leaving monitor `id`, each as its edge and the
/// name of the first monitor of `ms` with the id it leads to, if any.
pub open spec fn outgoing_spec(ts: Seq<EdgeTransition>, ms: Seq<Monitor>, id: u128) -> Seq<(GridEdge, Option<Seq<char>>)>
    decreases ts.len(),
{
    if ts.len() == 0 {
        seq![]
    } else {
        let p = outgoing_spec(ts.drop_last(), ms, id);
        let t = ts.last();
        if t.from_monitor == id {
            p.push(
                (
                    t.from_edge,
                    match monitor_with_id(ms, t.to_monitor) {
                        Some(m) => Some(m.name@),
                        None => None,
                    },
                ),
            )
        } else {
            p
        }
    }
}

/// An edge with a monitor name, the name taken by its characters.
pub open spec fn edge_name_view(x: (GridEdge, Option<String>)) -> (GridEdge, Option<Seq<char>>) {
    (
        x.0,
        match x.1 {
            Some(n) => Some(n@),
            None => None,
        },
    )
}

/// A grid has at most one first free cell.
proof fn lemma_first_free_unique(ms: Seq<Monitor>, cols: int, rows: int, c1: int, r1: int, c2: int, r2: int)
    requires
        is_first_free(ms, cols, rows, c1, r1),
        is_first_free(ms, cols, rows, c2, r2),
    ensures
        c1 == c2 && r1 == r2,
{
    if r1 < r2 || (r1 == r2 && c1 < c2) {
        assert(comes_before(c1, r1, c2, r2, cols));
        assert(occupied(ms, c1, r1));
    } else if r2 < r1 || (r1 == r2 && c2 < c1) {
        assert(comes_before(c2, r2, c1, r1, cols));
        assert(occupied(ms, c2, r2));
    }
}

/// The largest row bounds every placed row.
proof fn lemma_max_row_bounds(ms: Seq<Monitor>)
    ensures
        forall|k: int| 0 <= k < ms.len() && (#[trigger] ms[k]).grid_row is Some ==> ms[k].grid_row->0 <= max_row(ms),
        max_row(ms) >= 0,
    decreases ms.len(),
{
    if ms.len() > 0 {
        lemma_max_row_bounds(ms.drop_last());
        assert forall|k: int| 0 <= k < ms.len() && (#[trigger] ms[k]).grid_row is Some
            implies ms[k].grid_row->0 <= max_row(ms) by {
            if k < ms.len() - 1 {
                assert(ms[k] == ms.drop_last()[k]);
            }
        }
    }
}

/// A cell free in the grid stays free when the monitors of one id leave.
proof fn lemma_without_id_free(ms: Seq<Monitor>, id: u128, col: int, row: int)
    requires
        !occupied(ms, col, row),
    ensures
        !occupied(without_id(ms, id), col, row),
    decreases ms.len(),
{
    if ms.len() > 0 {
        let p = ms.drop_last();
        assert forall|i: int| 0 <= i < p.len() implies !at_cell(#[trigger] p[i], col, row) by {
            assert(p[i] == ms[i]);
            assert(!at_cell(ms[i], col, row));
        }
        lemma_without_id_free(p, id, col, row);
        let w = without_id(ms, id);
        let wp = without_id(p, id);
        if ms.last().id != id {
            assert forall|i: int| 0 <= i < w.len() implies !at_cell(#[trigger] w[i], col, row) by {
                if i < wp.len() {
                    assert(w[i] == wp[i]);
                } else {
                    assert(w[i] == ms[ms.len() - 1]);
                    assert(!at_cell(ms[ms.len() - 1], col, row));
                }
            }
        }
    }
}

/// The editor's promise: a monitor placed at the target cell is the one
/// found at that cell afterwards, whatever stood in the grid before.
pub proof fn law_placed_monitor_takes_target(b: GridBuilder, mon: Monitor)
    requires
        spec_target(b) is Some,
    ensures
        ({
            let (col, row) = spec_target(b)->0;
            first_at(without_id(b.grid.monitors@, mon.id).push(placed_at(mon, col, row)), col as int, row as int)
                == Some(placed_at(mon, col, row))
        }),
{
    let ms = b.grid.monitors@;
    let (col, row) = spec_target(b)->0;
    if free_selection(b) is None {
        let (c, r) = choose|c: u32, r: u32| is_first_free(ms, b.cols as int, b.rows as int, c as int, r as int);
        assert(is_first_free(ms, b.cols as int, b.rows as int, c as int, r as int));
    }
    assert(!occupied(ms, col as int, row as int));
    lemma_without_id_free(ms, mon.id, col as int, row as int);
    law_placed_monitor_found(without_id(ms, mon.id), mon, col, row);
}

/// Removing the monitors of one id keeps the placed positions bounded.
proof fn lemma_without_id_bounded(ms: Seq<Monitor>, id: u128)
    requires
        positions_bounded(ms),
    ensures
        positions_bounded(without_id(ms, id)),
    decreases ms.len(),
{
    if ms.len() > 0 {
        let p = ms.drop_last();
        assert forall|i: int|
            0 <= i < p.len() && (#[trigger] p[i]).grid_col is Some && p[i].grid_row is Some implies p[i].grid_col->0
                < u32::MAX && p[i].grid_row->0 < u32::MAX by {
            assert(p[i] == ms[i]);
        }
        lemma_without_id_bounded(p, id);
        let w = without_id(ms, id);
        let wp = without_id(p, id);
        if ms.last().id != id {
            assert forall|i: int|
                0 <= i < w.len() && (#[trigger] w[i]).grid_col is Some && w[i].grid_row is Some implies w[i].grid_col->0
                    < u32::MAX && w[i].grid_row->0 < u32::MAX by {
                if i < wp.len() {
                    assert(w[i] == wp[i]);
                } else {
                    assert(w[i] == ms[ms.len() - 1]);
                }
            }
        }
    }
}

/// The monitors without those of one id.
fn remove_id(v: &Vec<Monitor>, id: u128) -> (r: Vec<Monitor>)
    ensures
        r@ == without_id(v@, id),
{
    let mut r: Vec<Monitor> = Vec::new();
    let mut i: usize = 0;
    while i < v.len()
        invariant
            i <= v@.len(),
            r@ == without_id(v@.take(i as int), id),
        decreases v.len() - i,
    {
        assert(v@.take(i + 1).drop_last() =~= v@.take(i as int));
        assert(v@.take(i + 1).last() == v@[i as int]);
        if v[i].id != id {
            r.push(v[i].clone());
        }
        i += 1;
    }
    assert(v@.take(v@.len() as int) =~= v@);
    r
}

/// The largest row of the monitors that have one, 0 if none has.
pub fn max_grid_row(ms: &Vec<Monitor>) -> (r: u32)
    ensures
        r == max_row(ms@),
{
    let mut best: u32 = 0;
    let mut i: usize = 0;
    while i < ms.len()
        invariant
            i <= ms@.len(),
            best == max_row(ms@.take(i as int)),
        decreases ms.len() - i,
    {
        assert(ms@.take(i + 1).drop_last() =~= ms@.take(i as int));
        assert(ms@.take(i + 1).last() == ms@[i as int]);
        if let Some(r) = ms[i].grid_row {
            if r > best {
                best = r;
            }
        }
        i += 1;
    }
    assert(ms@.take(ms@.len() as int) =~= ms@);
    best
}

/// Whether a placed monitor of `ms` has the id `id`.
fn has_placed_id(ms: &Vec<Monitor>, id: u128) -> (b: bool)
    ensures
        b == placed_with_id(ms@, id),
{
    let mut i: usize = 0;
    while i < ms.len()
        invariant
            i <= ms@.len(),
            forall|j: int| 0 <= j < i ==> !(is_placed(#[trigger] ms@[j]) && ms@[j].id == id),
        decreases ms.len() - i,
    {
        if ms[i].grid_col.is_some() && ms[i].grid_row.is_some() && ms[i].id == id {
            return true;
        }
        i += 1;
    }
    false
}

/// Whether a monitor of `ms` has the name `name`.
fn has_monitor_name(ms: &Vec<Monitor>, name: &String) -> (b: bool)
    ensures
        b == has_name(ms@, name@),
{
    let mut i: usize = 0;
    while i < ms.len()
        invariant
            i <= ms@.len(),
            forall|j: int| 0 <= j < i ==> (#[trigger] ms@[j]).name@ != name@,
        decreases ms.len() - i,
    {
        if ms[i].name == *name {
            return true;
        }
        i += 1;
    }
    false
}

impl GridBuilder {
    /// The grid's placed positions, and the selected cell, leave room for
    /// the neighbour cells, so that the transitions can be rebuilt.
    pub open spec fn wf(self) -> bool {
        &&& positions_bounded(self.grid.monitors@)
        &&& self.selected matches Some(cell) ==> cell.0 < u32::MAX && cell.1 < u32::MAX
    }

    /// The editor opened on a grid with the monitors detected locally: the
    /// local monitors neither placed under their id nor named in the grid
    /// are listed as not placed; the grid shown is two columns and two rows
    /// beyond the last used ones, and at least four columns by two rows.
    pub fn new(grid: Grid, local_monitors: Vec<Monitor>) -> (b: Self)
        requires
            max_col(grid.monitors@) + 2 <= u32::MAX,
            max_row(grid.monitors@) + 2 <= u32::MAX,
        ensures
            b.wf(),
            b.grid.monitors@ == grid.monitors@,
            b.grid.transitions@ == grid.transitions@,
            b.unplaced@ == newly_unplaced(grid.monitors@, local_monitors@),
            b.cols == spec_max(max_col(grid.monitors@) + 2, 4),
            b.rows == spec_max(max_row(grid.monitors@) + 2, 2),
            b.selected is None,
            b.status is Idle,
    {
        let ghost ms = grid.monitors@;
        let mut unplaced: Vec<Monitor> = Vec::new();
        let mut i: usize = 0;
        while i < local_monitors.len()
            invariant
                i <= local_monitors@.len(),
                grid.monitors@ == ms,
                unplaced@ == newly_unplaced(ms, local_monitors@.take(i as int)),
            decreases local_monitors.len() - i,
        {
            assert(local_monitors@.take(i + 1).drop_last() =~= local_monitors@.take(i as int));
            assert(local_monitors@.take(i + 1).last() == local_monitors@[i as int]);
            let mon = &local_monitors[i];
            if !has_placed_id(&grid.monitors, mon.id) && !has_monitor_name(&grid.monitors, &mon.name) {
                unplaced.push(mon.clone());
            }
            i += 1;
        }
        assert(local_monitors@.take(local_monitors@.len() as int) =~= local_monitors@);
        let max_c = max_grid_col(&grid.monitors);
        let max_r = max_grid_row(&grid.monitors);
        let cols = if max_c + 2 >= 4 { max_c + 2 } else { 4 };
        let rows = if max_r + 2 >= 2 { max_r + 2 } else { 2 };
        proof {
            lemma_max_col_bounds(ms);
            lemma_max_row_bounds(ms);
        }
        GridBuilder { grid, unplaced, cols, rows, selected: None, status: BuilderStatus::Idle }
    }

    /// The cell the next monitor goes to: the selected cell if it is free,
    /// otherwise the first free cell read row by row; `None` when every
    /// cell is taken.
    pub fn target_cell(&self) -> (r: Option<(u32, u32)>)
        ensures
            r == spec_target(*self),
    {
        let ghost ms = self.grid.monitors@;
        if let Some((col, row)) = self.selected {
            proof {
                lemma_first_at(ms, col as int, row as int);
            }
            if self.grid.monitor_at(col, row).is_none() {
                return Some((col, row));
            }
        }
        let cols = self.cols;
        let rows = self.rows;
        let mut row: u32 = 0;
        while row < rows
            invariant
                ms == self.grid.monitors@,
                cols == self.cols,
                rows == self.rows,
                free_selection(*self) is None,
                row <= rows,
                forall|c2: int, r2: int| 0 <= r2 < row && 0 <= c2 < cols ==> #[trigger] occupied(ms, c2, r2),
            decreases rows - row,
        {
            let mut col: u32 = 0;
            while col < cols
                invariant
                    ms == self.grid.monitors@,
                    cols == self.cols,
                    rows == self.rows,
                    free_selection(*self) is None,
                    row < rows,
                    col <= cols,
                    forall|c2: int, r2: int| 0 <= r2 < row && 0 <= c2 < cols ==> #[trigger] occupied(ms, c2, r2),
                    forall|c2: int| 0 <= c2 < col ==> #[trigger] occupied(ms, c2, row as int),
                decreases cols - col,
            {
                proof {
                    lemma_first_at(ms, col as int, row as int);
                }
                if self.grid.monitor_at(col, row).is_none() {
                    proof {
                        assert forall|c2: int, r2: int| comes_before(c2, r2, col as int, row as int, cols as int) implies #[trigger] occupied(ms, c2, r2) by {
                            if r2 == row {
                                assert(occupied(ms, c2, row as int));
                            }
                        }
                        assert(is_first_free(ms, cols as int, rows as int, col as int, row as int));
                        let (c, r) = choose|c: u32, r: u32| is_first_free(ms, cols as int, rows as int, c as int, r as int);
                        lemma_first_free_unique(ms, cols as int, rows as int, c as int, r as int, col as int, row as int);
                    }
                    return Some((col, row));
                }
                col += 1;
            }
            row += 1;
        }
        proof {
            if exists|c: u32, r: u32| is_first_free(ms, cols as int, rows as int, c as int, r as int) {
                let (c, r) = choose|c: u32, r: u32| is_first_free(ms, cols as int, rows as int, c as int, r as int);
                assert(occupied(ms, c as int, r as int));
            }
        }
        None
    }

    /// Place a monitor at the target cell, if there is one: it leaves the
    /// list of monitors not placed, replaces any monitor of the grid with
    /// its id, and the transitions are rebuilt. Without a free cell nothing
    /// changes.
    pub fn place_monitor(&mut self, mon: &Monitor)
        requires
            old(self).wf(),
        ensures
            final(self).wf(),
            final(self).cols == old(self).cols,
            final(self).rows == old(self).rows,
            final(self).selected == old(self).selected,
            match spec_target(*old(self)) {
                Some((col, row)) => {
                    &&& final(self).unplaced@ == without_id(old(self).unplaced@, mon.id)
                    &&& final(self).grid.monitors@ == without_id(old(self).grid.monitors@, mon.id).push(
                        placed_at(*mon, col, row),
                    )
                    &&& final(self).grid.transitions@ == grid_transitions(final(self).grid.monitors@)
                    &&& final(self).status matches BuilderStatus::Placed { name, col: c, row: r } && name == mon.name
                        && c == col && r == row
                },
                None => {
                    &&& final(self).unplaced@ == old(self).unplaced@
                    &&& final(self).grid.monitors@ == old(self).grid.monitors@
                    &&& final(self).grid.transitions@ == old(self).grid.transitions@
                    &&& final(self).status == old(self).status
                },
            },
    {
        if let Some((col, row)) = self.target_cell() {
            proof {
                if free_selection(*self) is None {
                    let (c, r) = choose|c: u32, r: u32| is_first_free(self.grid.monitors@, self.cols as int, self.rows as int, c as int, r as int);
                }
                lemma_without_id_bounded(self.grid.monitors@, mon.id);
            }
            let mut m = mon.clone();
            m.grid_col = Some(col);
            m.grid_row = Some(row);
            let unplaced = remove_id(&self.unplaced, mon.id);
            self.unplaced = unplaced;
            let mut monitors = remove_id(&self.grid.monitors, mon.id);
            let ghost kept = monitors@;
            monitors.push(m);
            proof {
                let ms = monitors@;
                assert forall|i: int|
                    0 <= i < ms.len() && (#[trigger] ms[i]).grid_col is Some && ms[i].grid_row is Some implies ms[i].grid_col->0
                        < u32::MAX && ms[i].grid_row->0 < u32::MAX by {
                    if i < kept.len() {
                        assert(ms[i] == kept[i]);
                    }
                }
            }
            self.grid.monitors = monitors;
            self.grid.rebuild_transitions();
            self.status = BuilderStatus::Placed { name: mon.name.clone(), col, row };
        }
    }

    /// Take the monitor at the selected cell off the grid: every monitor of
    /// its id leaves the grid, the first of them joins the monitors not
    /// placed without a position, the transitions are rebuilt and the
    /// selection is cleared. Without a monitor at a selected cell nothing
    /// changes.
    pub fn remove_selected(&mut self)
        requires
            old(self).wf(),
        ensures
            final(self).wf(),
            final(self).cols == old(self).cols,
            final(self).rows == old(self).rows,
            final(self).status == old(self).status,
            match old(self).selected {
                Some(cell) => match first_at(old(self).grid.monitors@, cell.0 as int, cell.1 as int) {
                    Some(mon) => {
                        &&& final(self).grid.monitors@ == without_id(old(self).grid.monitors@, mon.id)
                        &&& final(self).grid.transitions@ == grid_transitions(final(self).grid.monitors@)
                        &&& final(self).unplaced@ == match monitor_with_id(old(self).grid.monitors@, mon.id) {
                            Some(first) => old(self).unplaced@.push(taken_off(first)),
                            None => old(self).unplaced@,
                        }
                        &&& final(self).selected is None
                    },
                    None => {
                        &&& final(self).grid.monitors@ == old(self).grid.monitors@
                        &&& final(self).grid.transitions@ == old(self).grid.transitions@
                        &&& final(self).unplaced@ == old(self).unplaced@
                        &&& final(self).selected == old(self).selected
                    },
                },
                None => {
                    &&& final(self).grid.monitors@ == old(self).grid.monitors@
                    &&& final(self).grid.transitions@ == old(self).grid.transitions@
                    &&& final(self).unplaced@ == old(self).unplaced@
                    &&& final(self).selected == old(self).selected
                },
            },
    {
        if let Some((col, row)) = self.selected {
            let id = match self.grid.monitor_at(col, row) {
                Some(mon) => Some(mon.id),
                None => None,
            };
            if let Some(id) = id {
                let removed = match find_monitor(&self.grid.monitors, id) {
                    Some(m) => Some(m.clone()),
                    None => None,
                };
                proof {
                    lemma_without_id_bounded(self.grid.monitors@, id);
                }
                let monitors = remove_id(&self.grid.monitors, id);
                self.grid.monitors = monitors;
                if let Some(mut m) = removed {
                    m.grid_col = None;
                    m.grid_row = None;
                    self.unplaced.push(m);
                }
                self.grid.rebuild_transitions();
                self.selected = None;
            }
        }
    }

    /// Rebuild the transitions and report how many there are.
    pub fn rebuild(&mut self)
        requires
            old(self).wf(),
        ensures
            final(self).wf(),
            final(self).grid.monitors@ == old(self).grid.monitors@,
            final(self).grid.transitions@ == grid_transitions(old(self).grid.monitors@),
            final(self).unplaced@ == old(self).unplaced@,
            final(self).cols == old(self).cols,
            final(self).rows == old(self).rows,
            final(self).selected == old(self).selected,
            final(self).status == (BuilderStatus::Rebuilt { count: grid_transitions(old(self).grid.monitors@).len() as usize }),
    {
        self.grid.rebuild_transitions();
        self.status = BuilderStatus::Rebuilt { count: self.grid.transitions.len() };
    }

    /// Record how saving the configuration went.
    pub fn record_save(&mut self, outcome: Result<(), String>)
        ensures
            final(self).grid == old(self).grid,
            final(self).unplaced == old(self).unplaced,
            final(self).cols == old(self).cols,
            final(self).rows == old(self).rows,
            final(self).selected == old(self).selected,
            final(self).status == match outcome {
                Ok(()) => BuilderStatus::Saved,
                Err(e) => BuilderStatus::SaveFailed(e),
            },
    {
        self.status = match outcome {
            Ok(()) => BuilderStatus::Saved,
            Err(e) => BuilderStatus::SaveFailed(e),
        };
    }

    /// The monitors to offer for placing: those not placed yet, then the
    /// monitors of the grid without a column or a row.
    pub fn pending_monitors(&self) -> (r: Vec<Monitor>)
        ensures
            r@ == self.unplaced@ + not_placed(self.grid.monitors@),
    {
        let ms = &self.grid.monitors;
        let mut extra: Vec<Monitor> = Vec::new();
        let mut i: usize = 0;
        while i < ms.len()
            invariant
                i <= ms@.len(),
                extra@ == not_placed(ms@.take(i as int)),
            decreases ms.len() - i,
        {
            assert(ms@.take(i + 1).drop_last() =~= ms@.take(i as int));
            assert(ms@.take(i + 1).last() == ms@[i as int]);
            if ms[i].grid_col.is_none() || ms[i].grid_row.is_none() {
                extra.push(ms[i].clone());
            }
            i += 1;
        }
        assert(ms@.take(ms@.len() as int) =~= ms@);
        let mut r = crate::machine::copy_monitors(&self.unplaced);
        let ghost first = r@;
        let mut k: usize = 0;
        while k < extra.len()
            invariant
                k <= extra@.len(),
                r@ == first + extra@.take(k as int),
            decreases extra.len() - k,
        {
            r.push(extra[k].clone());
            assert(r@ =~= first + extra@.take(k + 1));
            k += 1;
        }
        assert(extra@.take(extra@.len() as int) =~= extra@);
        r
    }

    /// The transitions leaving the monitor `id`, each as the edge it leaves
    /// over and the name of the monitor it leads to (`None` where the grid
    /// has no monitor of that id).
    pub fn outgoing(&self, id: u128) -> (r: Vec<(GridEdge, Option<String>)>)
        ensures
            r@.map_values(|x: (GridEdge, Option<String>)| edge_name_view(x)) == outgoing_spec(
                self.grid.transitions@,
                self.grid.monitors@,
                id,
            ),
    {
        let ts = &self.grid.transitions;
        let mut r: Vec<(GridEdge, Option<String>)> = Vec::new();
        let mut i: usize = 0;
        while i < ts.len()
            invariant
                i <= ts@.len(),
                r@.map_values(|x: (GridEdge, Option<String>)| edge_name_view(x)) == outgoing_spec(
                    ts@.take(i as int),
                    self.grid.monitors@,
                    id,
                ),
            decreases ts.len() - i,
        {
            assert(ts@.take(i + 1).drop_last() =~= ts@.take(i as int));
            assert(ts@.take(i + 1).last() == ts@[i as int]);
            let t = ts[i];
            if t.from_monitor == id {
                let name = match find_monitor(&self.grid.monitors, t.to_monitor) {
                    Some(m) => Some(m.name.clone()),
                    None => None,
                };
                let ghost before = r@;
                r.push((t.from_edge, name));
                assert(r@.map_values(|x: (GridEdge, Option<String>)| edge_name_view(x)) =~= before.map_values(
                    |x: (GridEdge, Option<String>)| edge_name_view(x),
                ).push(edge_name_view((t.from_edge, name))));
            }
            i += 1;
        }
        assert(ts@.take(ts@.len() as int) =~= ts@);
        r
    }

    /// How many monitors of the grid have a column.
    pub fn placed_count(&self) -> (n: usize)
        ensures
            n == count_with_col(self.grid.monitors@),
    {
        let ms = &self.grid.monitors;
        let mut n: usize = 0;
        let mut i: usize = 0;
        while i < ms.len()
            invariant
                i <= ms@.len(),
                n == count_with_col(ms@.take(i as int)),
                n <= i,
            decreases ms.len() - i,
        {
            assert(ms@.take(i + 1).drop_last() =~= ms@.take(i as int));
            assert(ms@.take(i + 1).last() == ms@[i as int]);
            if ms[i].grid_col.is_some() {
                n += 1;
            }
            i += 1;
        }
        assert(ms@.take(ms@.len() as int) =~= ms@);
        n
    }
}

} // verus!
