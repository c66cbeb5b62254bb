//! Laws of the grid: placement and lookup, and where edge transitions lead.

use vstd::prelude::*;
use crate::monitor::Monitor;
use crate::grid::{at_cell, first_at, first_transition, grid_transitions, link, occupied, transitions_from, transitions_of, lemma_first_at, EdgeRatio, EdgeTransition, GridEdge};

verus! {

/// No two monitors of `ms` carry the same id.
pub open spec fn ids_distinct(ms: Seq<Monitor>) -> bool {
    forall|i: int, j: int| 0 <= i < ms.len() && 0 <= j < ms.len() && i != j ==> (#[trigger] ms[i]).id != (#[trigger] ms[j]).id
}

/// No two placed monitors of `ms` share a grid cell.
pub open spec fn cells_distinct(ms: Seq<Monitor>) -> bool {
    forall|i: int, j: int|
        0 <= i < ms.len() && 0 <= j < ms.len() && i != j && (#[trigger] ms[i]).grid_col is Some
            && ms[i].grid_row is Some ==> !at_cell(#[trigger] ms[j], ms[i].grid_col->0 as int, ms[i].grid_row->0 as int)
}

/// The cell next to `(col, row)` across `edge`.
pub open spec fn neighbour_cell(col: int, row: int, edge: GridEdge) -> (int, int) {
    match edge {
        GridEdge::Right => (col + 1, row),
        GridEdge::Left => (col - 1, row),
        GridEdge::Bottom => (col, row + 1),
        GridEdge::Top => (col, row - 1),
    }
}

/// The transition from `m` over `edge` to `n`.
pub open spec fn transition_to(m: Monitor, edge: GridEdge, n: Monitor) -> EdgeTransition {
    EdgeTransition {
        from_monitor: m.id,
        from_edge: edge,
        to_monitor: n.id,
        to_machine: n.machine_id,
        position_ratio: EdgeRatio::spec_start(),
    }
}

/// Where the cursor leaving placed monitor `m` over `edge` goes: the first
/// monitor of `ms` in the neighbouring cell, if any.
pub open spec fn expected_transition(m: Monitor, edge: GridEdge, ms: Seq<Monitor>) -> Option<EdgeTransition> {
    let cell = neighbour_cell(m.grid_col->0 as int, m.grid_row->0 as int, edge);
    match first_at(ms, cell.0, cell.1) {
        Some(n) => Some(transition_to(m, edge, n)),
        None => None,
    }
}

proof fn lemma_first_transition_concat(a: Seq<EdgeTransition>, b: Seq<EdgeTransition>, id: u128, e: GridEdge)
    ensures
        first_transition(a + b, id, e) == (match first_transition(a, id, e) {
            Some(t) => Some(t),
            None => first_transition(b, id, e),
        }),
    decreases b.len(),
{
    if b.len() == 0 {
        assert(a + b =~= a);
    } else {
        lemma_first_transition_concat(a, b.drop_last(), id, e);
        assert((a + b).drop_last() =~= a + b.drop_last());
    }
}

proof fn lemma_first_transition_none(a: Seq<EdgeTransition>, id: u128, e: GridEdge)
    requires
        forall|k: int| 0 <= k < a.len() ==> (#[trigger] a[k]).from_monitor != id,
    ensures
        first_transition(a, id, e) is None,
    decreases a.len(),
{
    if a.len() > 0 {
        lemma_first_transition_none(a.drop_last(), id, e);
    }
}

proof fn lemma_from_single(m: Monitor, edge: GridEdge, ms: Seq<Monitor>, col: int, row: int)
    ensures
        forall|k: int| 0 <= k < link(m, edge, ms, col, row).len()
            ==> (#[trigger] link(m, edge, ms, col, row)[k]).from_monitor == m.id,
        link(m, edge, ms, col, row).len() <= 1,
{
}

/// Every transition leaving `m` starts at `m`.
proof fn lemma_transitions_from_source(m: Monitor, ms: Seq<Monitor>)
    ensures
        forall|k: int| 0 <= k < transitions_from(m, ms).len()
            ==> (#[trigger] transitions_from(m, ms)[k]).from_monitor == m.id,
{
    match (m.grid_col, m.grid_row) {
        (Some(c), Some(r)) => {
            let a = link(m, GridEdge::Right, ms, c + 1, r as int);
            let b = if c > 0 { link(m, GridEdge::Left, ms, c - 1, r as int) } else { seq![] };
            let d = link(m, GridEdge::Bottom, ms, c as int, r + 1);
            let f = if r > 0 { link(m, GridEdge::Top, ms, c as int, r - 1) } else { seq![] };
            lemma_from_single(m, GridEdge::Right, ms, c + 1, r as int);
            lemma_from_single(m, GridEdge::Left, ms, c - 1, r as int);
            lemma_from_single(m, GridEdge::Bottom, ms, c as int, r + 1);
            lemma_from_single(m, GridEdge::Top, ms, c as int, r - 1);
            let all = a + b + d + f;
            assert forall|k: int| 0 <= k < all.len() implies (#[trigger] all[k]).from_monitor == m.id by {
                if k < a.len() {
                } else if k < a.len() + b.len() {
                    assert(all[k] == b[k - a.len()]);
                } else if k < a.len() + b.len() + d.len() {
                    assert(all[k] == d[k - a.len() - b.len()]);
                } else {
                    assert(all[k] == f[k - a.len() - b.len() - d.len()]);
                }
            }
        },
        _ => {},
    }
}

/// The transitions of a prefix all start at monitors of that prefix.
proof fn lemma_transitions_of_sources(prefix: Seq<Monitor>, ms: Seq<Monitor>)
    ensures
        forall|k: int| 0 <= k < transitions_of(prefix, ms).len() ==> exists|p: int|
            0 <= p < prefix.len() && (#[trigger] transitions_of(prefix, ms)[k]).from_monitor == prefix[p].id,
    decreases prefix.len(),
{
    if prefix.len() > 0 {
        let p = prefix.drop_last();
        lemma_transitions_of_sources(p, ms);
        lemma_transitions_from_source(prefix.last(), ms);
        let a = transitions_of(p, ms);
        let b = transitions_from(prefix.last(), ms);
        assert forall|k: int| 0 <= k < (a + b).len() implies exists|q: int|
            0 <= q < prefix.len() && (#[trigger] (a + b)[k]).from_monitor == prefix[q].id by {
            if k < a.len() {
                let q = choose|q: int| 0 <= q < p.len() && a[k].from_monitor == p[q].id;
                assert(prefix[q] == p[q]);
            } else {
                assert((a + b)[k] == b[k - a.len()]);
                assert(prefix[prefix.len() - 1] == prefix.last());
            }
        }
    }
}

/// No monitor sits left of column 0 or above row 0.
proof fn lemma_no_negative_cell(ms: Seq<Monitor>, col: int, row: int)
    requires
        col < 0 || row < 0,
    ensures
        first_at(ms, col, row) is None,
{
    lemma_first_at(ms, col, row);
}

/// The first transition leaving placed `m` over `edge` among its own
/// transitions is the expected one.
proof fn lemma_own_transition(m: Monitor, edge: GridEdge, ms: Seq<Monitor>)
    requires
        m.grid_col is Some,
        m.grid_row is Some,
    ensures
        first_transition(transitions_from(m, ms), m.id, edge) == expected_transition(m, edge, ms),
{
    let c = m.grid_col->0;
    let r = m.grid_row->0;
    let a = link(m, GridEdge::Right, ms, c + 1, r as int);
    let b = if c > 0 { link(m, GridEdge::Left, ms, c - 1, r as int) } else { seq![] };
    let d = link(m, GridEdge::Bottom, ms, c as int, r + 1);
    let f = if r > 0 { link(m, GridEdge::Top, ms, c as int, r - 1) } else { seq![] };
    if c == 0 {
        lemma_no_negative_cell(ms, c - 1, r as int);
        assert(b =~= link(m, GridEdge::Left, ms, c - 1, r as int));
    }
    if r == 0 {
        lemma_no_negative_cell(ms, c as int, r - 1);
        assert(f =~= link(m, GridEdge::Top, ms, c as int, r - 1));
    }
    assert(transitions_from(m, ms) == a + b + d + f);
    lemma_first_transition_concat(a + b + d, f, m.id, edge);
    lemma_first_transition_concat(a + b, d, m.id, edge);
    lemma_first_transition_concat(a, b, m.id, edge);
    let e = edge;
    assert(a.len() == 1 ==> a.drop_last() =~= seq![]);
    assert(b.len() == 1 ==> b.drop_last() =~= seq![]);
    assert(d.len() == 1 ==> d.drop_last() =~= seq![]);
    assert(f.len() == 1 ==> f.drop_last() =~= seq![]);
    assert(first_transition(seq![], m.id, e) is None);
}

/// Within `transitions_of(ms.take(n), ms)` for `n > i`, the first transition
/// leaving `ms[i]` over `edge` is the one among `ms[i]`'s own transitions.
proof fn lemma_first_in_prefix(ms: Seq<Monitor>, i: int, n: int, edge: GridEdge)
    requires
        ids_distinct(ms),
        0 <= i < n <= ms.len(),
    ensures
        first_transition(transitions_of(ms.take(n), ms), ms[i].id, edge)
            == first_transition(transitions_from(ms[i], ms), ms[i].id, edge),
    decreases n,
{
    let id = ms[i].id;
    assert(ms.take(n).drop_last() =~= ms.take(n - 1));
    assert(ms.take(n).last() == ms[n - 1]);
    if n == i + 1 {
        let before = transitions_of(ms.take(i), ms);
        lemma_transitions_of_sources(ms.take(i), ms);
        assert forall|k: int| 0 <= k < before.len() implies (#[trigger] before[k]).from_monitor != id by {
            let p = choose|p: int| 0 <= p < ms.take(i).len() && before[k].from_monitor == ms.take(i)[p].id;
            assert(ms.take(i)[p] == ms[p]);
        }
        lemma_first_transition_none(before, id, edge);
        lemma_first_transition_concat(before, transitions_from(ms[i], ms), id, edge);
    } else {
        lemma_first_in_prefix(ms, i, n - 1, edge);
        let before = transitions_of(ms.take(n - 1), ms);
        let last = transitions_from(ms[n - 1], ms);
        lemma_transitions_from_source(ms[n - 1], ms);
        lemma_first_transition_none(last, id, edge);
        lemma_first_transition_concat(before, last, id, edge);
    }
}

/// After `rebuild_transitions`, a cursor leaving a placed monitor over an
/// edge is sent to the first monitor placed in the neighbouring cell (none
/// where that cell is empty), and a monitor without a grid position has no
/// transitions at all. Holds where monitor ids are distinct.
pub proof fn law_edge_leads_to_neighbour(ms: Seq<Monitor>, i: int, edge: GridEdge)
    requires
        ids_distinct(ms),
        0 <= i < ms.len(),
    ensures
        ms[i].grid_col is Some && ms[i].grid_row is Some ==> first_transition(
            grid_transitions(ms),
            ms[i].id,
            edge,
        ) == expected_transition(ms[i], edge, ms),
        !(ms[i].grid_col is Some && ms[i].grid_row is Some) ==> first_transition(
            grid_transitions(ms),
            ms[i].id,
            edge,
        ) is None,
{
    lemma_first_in_prefix(ms, i, ms.len() as int, edge);
    assert(ms.take(ms.len() as int) =~= ms);
    if ms[i].grid_col is Some && ms[i].grid_row is Some {
        lemma_own_transition(ms[i], edge, ms);
    } else {
        assert(transitions_from(ms[i], ms) =~= seq![]);
    }
}

/// Where no two placed monitors share a cell, the monitor placed in a cell
/// is the one found there.
pub proof fn lemma_unique_cell(ms: Seq<Monitor>, j: int)
    requires
        cells_distinct(ms),
        0 <= j < ms.len(),
        ms[j].grid_col is Some,
        ms[j].grid_row is Some,
    ensures
        first_at(ms, ms[j].grid_col->0 as int, ms[j].grid_row->0 as int) == Some(ms[j]),
{
    let col = ms[j].grid_col->0 as int;
    let row = ms[j].grid_row->0 as int;
    lemma_first_at(ms, col, row);
    assert(at_cell(ms[j], col, row));
    let m = first_at(ms, col, row)->0;
    let k = choose|k: int| 0 <= k < ms.len() && ms[k] == m && at_cell(m, col, row)
        && forall|q: int| 0 <= q < k ==> !at_cell(#[trigger] ms[q], col, row);
    if k != j {
        assert(!at_cell(ms[k], col, row));
    }
}

/// Adjacent monitors are linked both ways: where no two placed monitors
/// share a cell and ids are distinct, and `ms[j]` sits right of (below)
/// `ms[i]`, leaving `ms[i]` over its right (bottom) edge lands on `ms[j]`
/// and leaving `ms[j]` over its left (top) edge lands on `ms[i]`.
pub proof fn law_adjacent_monitors_linked_both_ways(ms: Seq<Monitor>, i: int, j: int, horizontal: bool)
    requires
        ids_distinct(ms),
        cells_distinct(ms),
        0 <= i < ms.len(),
        0 <= j < ms.len(),
        ms[i].grid_col is Some,
        ms[i].grid_row is Some,
        ms[j].grid_col is Some,
        ms[j].grid_row is Some,
        horizontal ==> ms[j].grid_col->0 == ms[i].grid_col->0 + 1 && ms[j].grid_row->0 == ms[i].grid_row->0,
        !horizontal ==> ms[j].grid_col->0 == ms[i].grid_col->0 && ms[j].grid_row->0 == ms[i].grid_row->0 + 1,
    ensures
        horizontal ==> first_transition(grid_transitions(ms), ms[i].id, GridEdge::Right) == Some(
            transition_to(ms[i], GridEdge::Right, ms[j]),
        ),
        horizontal ==> first_transition(grid_transitions(ms), ms[j].id, GridEdge::Left) == Some(
            transition_to(ms[j], GridEdge::Left, ms[i]),
        ),
        !horizontal ==> first_transition(grid_transitions(ms), ms[i].id, GridEdge::Bottom) == Some(
            transition_to(ms[i], GridEdge::Bottom, ms[j]),
        ),
        !horizontal ==> first_transition(grid_transitions(ms), ms[j].id, GridEdge::Top) == Some(
            transition_to(ms[j], GridEdge::Top, ms[i]),
        ),
{
    lemma_unique_cell(ms, i);
    lemma_unique_cell(ms, j);
    if horizontal {
        law_edge_leads_to_neighbour(ms, i, GridEdge::Right);
        law_edge_leads_to_neighbour(ms, j, GridEdge::Left);
    } else {
        law_edge_leads_to_neighbour(ms, i, GridEdge::Bottom);
        law_edge_leads_to_neighbour(ms, j, GridEdge::Top);
    }
}

/// A monitor placed at a free cell is the one found there afterwards.
pub proof fn law_placed_monitor_found(ms: Seq<Monitor>, m: Monitor, col: u32, row: u32)
    requires
        !occupied(ms, col as int, row as int),
    ensures
        first_at(
            ms.push(Monitor { grid_col: Some(col), grid_row: Some(row), ..m }),
            col as int,
            row as int,
        ) == Some(Monitor { grid_col: Some(col), grid_row: Some(row), ..m }),
{
    let placed = Monitor { grid_col: Some(col), grid_row: Some(row), ..m };
    lemma_first_at(ms, col as int, row as int);
    assert(ms.push(placed).drop_last() =~= ms);
}


/// The edge opposite `edge`: the one a cursor coming back crosses.
pub open spec fn opposite(edge: GridEdge) -> GridEdge {
    match edge {
        GridEdge::Right => GridEdge::Left,
        GridEdge::Left => GridEdge::Right,
        GridEdge::Bottom => GridEdge::Top,
        GridEdge::Top => GridEdge::Bottom,
    }
}

/// The transitions `ts` hold one from monitor `from` over `edge` to monitor
/// `to`.
pub open spec fn has_link(ts: Seq<EdgeTransition>, from: u128, edge: GridEdge, to: u128) -> bool {
    exists|k: int|
        0 <= k < ts.len() && (#[trigger] ts[k]).from_monitor == from && ts[k].from_edge == edge && ts[k].to_monitor == to
}

/// No two transitions of `ts` leave the same monitor over the same edge.
pub open spec fn one_per_edge(ts: Seq<EdgeTransition>) -> bool {
    forall|k1: int, k2: int|
        0 <= k1 < ts.len() && 0 <= k2 < ts.len() && k1 != k2 && (#[trigger] ts[k1]).from_monitor
            == (#[trigger] ts[k2]).from_monitor ==> ts[k1].from_edge != ts[k2].from_edge
}

/// The first transition leaving `id` over `e` is one of `ts`, and there is
/// one whenever `ts` holds a transition leaving `id` over `e`.
proof fn lemma_first_transition_member(ts: Seq<EdgeTransition>, id: u128, e: GridEdge)
    ensures
        first_transition(ts, id, e) matches Some(t) ==> ts.contains(t) && t.from_monitor == id && t.from_edge == e,
        (exists|k: int| 0 <= k < ts.len() && (#[trigger] ts[k]).from_monitor == id && ts[k].from_edge == e)
            ==> first_transition(ts, id, e) is Some,
    decreases ts.len(),
{
    if ts.len() > 0 {
        let p = ts.drop_last();
        lemma_first_transition_member(p, id, e);
        if first_transition(p, id, e) is Some {
            let t = first_transition(p, id, e)->0;
            let k = choose|k: int| 0 <= k < p.len() && p[k] == t;
            assert(ts[k] == p[k]);
        } else if ts.last().from_monitor == id && ts.last().from_edge == e {
            assert(ts[ts.len() - 1] == ts.last());
        } else {
            if exists|k: int| 0 <= k < ts.len() && (#[trigger] ts[k]).from_monitor == id && ts[k].from_edge == e {
                let k = choose|k: int| 0 <= k < ts.len() && (#[trigger] ts[k]).from_monitor == id && ts[k].from_edge == e;
                if k < p.len() {
                    assert(p[k] == ts[k]);
                }
            }
        }
    }
}

/// Every transition of a link crosses the link's edge.
proof fn lemma_link_edge(m: Monitor, edge: GridEdge, ms: Seq<Monitor>, col: int, row: int)
    ensures
        forall|k: int| 0 <= k < link(m, edge, ms, col, row).len()
            ==> (#[trigger] link(m, edge, ms, col, row)[k]).from_edge == edge,
{
}

/// A monitor's own transitions cross distinct edges.
proof fn lemma_transitions_from_one_per_edge(m: Monitor, ms: Seq<Monitor>)
    ensures
        one_per_edge(transitions_from(m, ms)),
{
    match (m.grid_col, m.grid_row) {
        (Some(c), Some(r)) => {
            let a = link(m, GridEdge::Right, ms, c + 1, r as int);
            let b = if c > 0 { link(m, GridEdge::Left, ms, c - 1, r as int) } else { seq![] };
            let d = link(m, GridEdge::Bottom, ms, c as int, r + 1);
            let f = if r > 0 { link(m, GridEdge::Top, ms, c as int, r - 1) } else { seq![] };
            lemma_from_single(m, GridEdge::Right, ms, c + 1, r as int);
            lemma_from_single(m, GridEdge::Left, ms, c - 1, r as int);
            lemma_from_single(m, GridEdge::Bottom, ms, c as int, r + 1);
            lemma_from_single(m, GridEdge::Top, ms, c as int, r - 1);
            lemma_link_edge(m, GridEdge::Right, ms, c + 1, r as int);
            lemma_link_edge(m, GridEdge::Left, ms, c - 1, r as int);
            lemma_link_edge(m, GridEdge::Bottom, ms, c as int, r + 1);
            lemma_link_edge(m, GridEdge::Top, ms, c as int, r - 1);
            let all = a + b + d + f;
            assert(transitions_from(m, ms) == all);
            let la = a.len() as int;
            let lb = b.len() as int;
            let ld = d.len() as int;
            assert forall|k: int| 0 <= k < all.len() implies (#[trigger] all[k]).from_edge == (if k < la {
                GridEdge::Right
            } else if k < la + lb {
                GridEdge::Left
            } else if k < la + lb + ld {
                GridEdge::Bottom
            } else {
                GridEdge::Top
            }) by {
                if k < la {
                } else if k < la + lb {
                    assert(all[k] == b[k - la]);
                } else if k < la + lb + ld {
                    assert(all[k] == d[k - la - lb]);
                } else {
                    assert(all[k] == f[k - la - lb - ld]);
                }
            }
            assert forall|k1: int, k2: int|
                0 <= k1 < all.len() && 0 <= k2 < all.len() && k1 != k2 && (#[trigger] all[k1]).from_monitor
                    == (#[trigger] all[k2]).from_monitor implies all[k1].from_edge != all[k2].from_edge by {
                assert(all[k1].from_edge == (if k1 < la {
                    GridEdge::Right
                } else if k1 < la + lb {
                    GridEdge::Left
                } else if k1 < la + lb + ld {
                    GridEdge::Bottom
                } else {
                    GridEdge::Top
                }));
                assert(all[k2].from_edge == (if k2 < la {
                    GridEdge::Right
                } else if k2 < la + lb {
                    GridEdge::Left
                } else if k2 < la + lb + ld {
                    GridEdge::Bottom
                } else {
                    GridEdge::Top
                }));
            }
        },
        _ => {},
    }
}

/// The transitions of the first `n` monitors leave each monitor over each
/// edge at most once, where ids are distinct.
proof fn lemma_prefix_one_per_edge(ms: Seq<Monitor>, n: int)
    requires
        ids_distinct(ms),
        0 <= n <= ms.len(),
    ensures
        one_per_edge(transitions_of(ms.take(n), ms)),
    decreases n,
{
    if n > 0 {
        lemma_prefix_one_per_edge(ms, n - 1);
        assert(ms.take(n).drop_last() =~= ms.take(n - 1));
        assert(ms.take(n).last() == ms[n - 1]);
        let a = transitions_of(ms.take(n - 1), ms);
        let b = transitions_from(ms[n - 1], ms);
        lemma_transitions_of_sources(ms.take(n - 1), ms);
        lemma_transitions_from_source(ms[n - 1], ms);
        lemma_transitions_from_one_per_edge(ms[n - 1], ms);
        let all = a + b;
        assert(transitions_of(ms.take(n), ms) == all);
        assert forall|k1: int, k2: int|
            0 <= k1 < all.len() && 0 <= k2 < all.len() && k1 != k2 && (#[trigger] all[k1]).from_monitor
                == (#[trigger] all[k2]).from_monitor implies all[k1].from_edge != all[k2].from_edge by {
            if k1 < a.len() && k2 < a.len() {
                assert(all[k1] == a[k1] && all[k2] == a[k2]);
            } else if k1 >= a.len() && k2 >= a.len() {
                assert(all[k1] == b[k1 - a.len()] && all[k2] == b[k2 - a.len()]);
            } else {
                let ka = if k1 < a.len() { k1 } else { k2 };
                let kb = if k1 < a.len() { k2 } else { k1 };
                assert(all[ka] == a[ka]);
                assert(all[kb] == b[kb - a.len()]);
                let pre = ms.take(n - 1);
                assert(exists|q: int| 0 <= q < pre.len() && a[ka].from_monitor == (#[trigger] pre[q]).id);
                let q = choose|q: int| 0 <= q < pre.len() && a[ka].from_monitor == (#[trigger] pre[q]).id;
                assert(pre[q] == ms[q]);
                assert(ms[q].id != ms[n - 1].id);
            }
        }
    }
}

/// Rebuilt transitions leave each monitor over each edge at most once,
/// wherever monitor ids are distinct.
pub proof fn law_one_transition_per_edge(ms: Seq<Monitor>)
    requires
        ids_distinct(ms),
    ensures
        one_per_edge(grid_transitions(ms)),
{
    lemma_prefix_one_per_edge(ms, ms.len() as int);
    assert(ms.take(ms.len() as int) =~= ms);
}

/// A transition from `x` over `e` to `y` has its way back: a transition
/// from `y` over the opposite edge to `x`.
proof fn lemma_link_reversed(ms: Seq<Monitor>, x: u128, e: GridEdge, y: u128)
    requires
        ids_distinct(ms),
        cells_distinct(ms),
        has_link(grid_transitions(ms), x, e, y),
    ensures
        has_link(grid_transitions(ms), y, opposite(e), x),
{
    let ts = grid_transitions(ms);
    let k = choose|k: int|
        0 <= k < ts.len() && (#[trigger] ts[k]).from_monitor == x && ts[k].from_edge == e && ts[k].to_monitor == y;
    lemma_transitions_of_sources(ms, ms);
    let p = choose|p: int| 0 <= p < ms.len() && ts[k].from_monitor == ms[p].id;
    lemma_first_transition_member(ts, x, e);
    let t1 = first_transition(ts, x, e)->0;
    let k1 = choose|k1: int| 0 <= k1 < ts.len() && ts[k1] == t1;
    law_one_transition_per_edge(ms);
    if k1 != k {
        assert(ts[k1].from_monitor == ts[k].from_monitor);
    }
    law_edge_leads_to_neighbour(ms, p, e);
    let c = ms[p].grid_col->0 as int;
    let r = ms[p].grid_row->0 as int;
    let cell = neighbour_cell(c, r, e);
    let n = first_at(ms, cell.0, cell.1)->0;
    lemma_first_at(ms, cell.0, cell.1);
    let j = choose|j: int|
        0 <= j < ms.len() && ms[j] == n && at_cell(n, cell.0, cell.1)
            && forall|q: int| 0 <= q < j ==> !at_cell(#[trigger] ms[q], cell.0, cell.1);
    law_edge_leads_to_neighbour(ms, j, opposite(e));
    lemma_unique_cell(ms, p);
    assert(neighbour_cell(n.grid_col->0 as int, n.grid_row->0 as int, opposite(e)) == (c, r));
    lemma_first_transition_member(ts, y, opposite(e));
    let t2 = first_transition(ts, y, opposite(e))->0;
    let k2 = choose|k2: int| 0 <= k2 < ts.len() && ts[k2] == t2;
    assert(ts[k2].from_monitor == y && ts[k2].from_edge == opposite(e) && ts[k2].to_monitor == x);
}

/// Rebuilt transitions come in pairs: there is one from monitor `a` over
/// its right (bottom) edge to monitor `b` exactly when there is one from `b`
/// over its left (top) edge to `a`. Holds where ids are distinct and no two
/// placed monitors share a cell.
pub proof fn law_transitions_symmetric(ms: Seq<Monitor>, a: u128, b: u128)
    requires
        ids_distinct(ms),
        cells_distinct(ms),
    ensures
        has_link(grid_transitions(ms), a, GridEdge::Right, b) <==> has_link(grid_transitions(ms), b, GridEdge::Left, a),
        has_link(grid_transitions(ms), a, GridEdge::Bottom, b) <==> has_link(grid_transitions(ms), b, GridEdge::Top, a),
{
    let ts = grid_transitions(ms);
    if has_link(ts, a, GridEdge::Right, b) {
        lemma_link_reversed(ms, a, GridEdge::Right, b);
    }
    if has_link(ts, b, GridEdge::Left, a) {
        lemma_link_reversed(ms, b, GridEdge::Left, a);
    }
    if has_link(ts, a, GridEdge::Bottom, b) {
        lemma_link_reversed(ms, a, GridEdge::Bottom, b);
    }
    if has_link(ts, b, GridEdge::Top, a) {
        lemma_link_reversed(ms, b, GridEdge::Top, a);
    }
}

} // verus!
