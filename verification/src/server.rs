//! The server's decisions: which machine and monitor have the focus, where
//! input goes, how a connecting or leaving client changes the grid, and what
//! answers a client's message. Sending and receiving stay with the caller,
//! which performs the returned actions.

use vstd::prelude::*;
use crate::grid::{
    first_transition, grid_transitions, monitor_with_id, positions_bounded, find_monitor,
    EdgeRatio, EdgeTransition, Grid, GridEdge,
};
use crate::input::InputEvent;
use crate::machine::Machine;
use crate::monitor::Monitor;
use crate::protocol::Message;
use crate::grid::at_cell;
use crate::grid_laws::cells_distinct;

verus! {

/// Which machine and monitor the cursor is on.
#[derive(Debug, Clone, Copy, PartialEq, Eq, Structural)]
pub struct Focus {
    pub machine_id: u128,
    pub monitor_id: u128,
    /// Whether the focused monitor belongs to the server itself.
    pub is_local: bool,
}

/// A connected client, as the server's decisions need it.
#[derive(Debug, PartialEq, Eq)]
pub struct ClientRecord {
    pub id: u128,
    pub name: String,
}

impl Clone for ClientRecord {
    fn clone(&self) -> (r: Self)
        ensures
            r == *self,
    {
        ClientRecord { id: self.id, name: self.name.clone() }
    }
}

/// The state the server's decisions work on.
#[derive(Debug)]
pub struct ServerState {
    pub server_id: u128,
    /// The server machine's own monitors.
    pub server_monitors: Vec<Monitor>,
    pub grid: Grid,
    /// The connected clients, at most one per id.
    pub clients: Vec<ClientRecord>,
    pub focus: Focus,
}

/// What to do with a captured input event.
#[derive(Debug, PartialEq, Eq)]
pub enum InputRoute {
    /// The focus is on the server: the event stays local.
    Local,
    /// Forward the event to this client.
    Forward { machine_id: u128 },
    /// The focused client is not connected: the event is dropped.
    Dropped,
    /// Send `Activate` to this client; on success the focus moves there.
    Activate { machine_id: u128, monitor_id: u128, x: i32, y: i32 },
}

/// What follows from a client reporting that the cursor left its edge.
#[derive(Debug, PartialEq, Eq)]
pub enum EdgeHitOutcome {
    /// No transition leaves that monitor over that edge: nothing happens.
    NoTransition,
    /// The focus is back on the server's monitor.
    ReturnedToServer { deactivate_sender: bool },
    /// The target monitor is not in the grid, or its machine is not connected.
    TargetUnavailable { deactivate_sender: bool },
    /// Send `Activate` to the target client; on success the focus moves there.
    Activate { deactivate_sender: bool, machine_id: u128, monitor_id: u128, x: i32, y: i32 },
}

/// What the server does in answer to a client's message.
#[derive(Debug, PartialEq, Eq)]
pub enum ServerAction {
    /// Nothing.
    Nothing,
    /// Answer `Pong` to the sender.
    Pong { to: u128 },
    /// Forward the clipboard content to these clients.
    Broadcast { recipients: Vec<u128>, content: String },
    /// The cursor left a client's edge.
    EdgeHit(EdgeHitOutcome),
}

/// No two clients share an id.
pub open spec fn client_ids_distinct(cs: Seq<ClientRecord>) -> bool {
    forall|i: int, j: int|
        0 <= i < cs.len() && 0 <= j < cs.len() && i != j ==> (#[trigger] cs[i]).id != (#[trigger] cs[j]).id
}

/// Whether a client with this id is connected.
pub open spec fn has_client(cs: Seq<ClientRecord>, id: u128) -> bool {
    exists|i: int| 0 <= i < cs.len() && (#[trigger] cs[i]).id == id
}

/// The ids of the connected clients named `name`, in order.
pub open spec fn ids_named(cs: Seq<ClientRecord>, name: Seq<char>) -> Seq<u128>
    decreases cs.len(),
{
    if cs.len() == 0 {
        seq![]
    } else if cs.last().name@ == name {
        ids_named(cs.drop_last(), name).push(cs.last().id)
    } else {
        ids_named(cs.drop_last(), name)
    }
}

/// The clients not named `name`, in order.
pub open spec fn clients_not_named(cs: Seq<ClientRecord>, name: Seq<char>) -> Seq<ClientRecord>
    decreases cs.len(),
{
    if cs.len() == 0 {
        seq![]
    } else if cs.last().name@ == name {
        clients_not_named(cs.drop_last(), name)
    } else {
        clients_not_named(cs.drop_last(), name).push(cs.last())
    }
}

/// The clients other than `id`, in order.
pub open spec fn clients_except(cs: Seq<ClientRecord>, id: u128) -> Seq<ClientRecord>
    decreases cs.len(),
{
    if cs.len() == 0 {
        seq![]
    } else if cs.last().id == id {
        clients_except(cs.drop_last(), id)
    } else {
        clients_except(cs.drop_last(), id).push(cs.last())
    }
}

/// The monitors whose machine is not among `ids`, in order.
pub open spec fn monitors_without(ms: Seq<Monitor>, ids: Seq<u128>) -> Seq<Monitor>
    decreases ms.len(),
{
    if ms.len() == 0 {
        seq![]
    } else if ids.contains(ms.last().machine_id) {
        monitors_without(ms.drop_last(), ids)
    } else {
        monitors_without(ms.drop_last(), ids).push(ms.last())
    }
}

/// The largest grid column of the monitors that have one, 0 if none has.
pub open spec fn max_col(ms: Seq<Monitor>) -> int
    decreases ms.len(),
{
    if ms.len() == 0 {
        0
    } else {
        let p = max_col(ms.drop_last());
        match ms.last().grid_col {
            Some(c) => if c > p { c as int } else { p },
            None => p,
        }
    }
}

/// The first column free for a newly connected machine: right of every
/// placed monitor (0 in an empty grid).
pub open spec fn start_col(ms: Seq<Monitor>) -> int {
    if ms.len() == 0 { 0 } else { max_col(ms) + 1 }
}

/// The monitors of a connecting machine placed in row 0 from column `start`.
pub open spec fn placed_in_row(ms: Seq<Monitor>, start: int) -> Seq<Monitor> {
    Seq::new(ms.len(), |i: int| Monitor { grid_col: Some((start + i) as u32), grid_row: Some(0u32), ..ms[i] })
}

/// The monitors that stay when `machine` connects: all but those of clients
/// with the same name and those of the machine itself.
pub open spec fn kept_on_admission(s: ServerState, machine: Machine) -> Seq<Monitor> {
    monitors_without(s.grid.monitors@, ids_named(s.clients@, machine.name@).push(machine.id))
}

/// Admitting `machine` computes every grid column within `u32`.
pub open spec fn admission_fits(s: ServerState, machine: Machine) -> bool {
    let kept = kept_on_admission(s, machine);
    &&& positions_bounded(kept)
    &&& (kept.len() == 0 || max_col(kept) < u32::MAX)
    &&& start_col(kept) + machine.monitors@.len() <= u32::MAX
}

/// The entry point on the target can be computed without overflow: the
/// last column (row) `width - 1` (`height - 1`) exists in `i32`.
pub open spec fn entry_fits(edge: GridEdge, target: Monitor) -> bool {
    match edge {
        GridEdge::Left => target.width != 0x8000_0000,
        GridEdge::Top => target.height != 0x8000_0000,
        _ => true,
    }
}

/// The sign-correct truncating quotient `a / b` (as `as i32` truncates).
pub open spec fn trunc_div(a: int, b: int) -> int
    recommends
        b != 0,
{
    let q = (if a >= 0 { a } else { -a }) / (if b >= 0 { b } else { -b });
    if (a >= 0) == (b > 0) || a == 0 { q } else { -q }
}

/// `v` saturated into `i32`, as a float-to-integer cast saturates.
pub open spec fn saturate_i32(v: int) -> int {
    if v > i32::MAX { i32::MAX as int } else if v < i32::MIN { i32::MIN as int } else { v }
}

/// The offset `len * ratio` along an edge of length `len`, truncated toward
/// zero and saturated; a zero denominator gives the saturated sign of the
/// numerator (0 for 0/0 or a zero length).
pub open spec fn scaled_offset(len: u32, r: EdgeRatio) -> int {
    if r.denom == 0 {
        if r.numer == 0 || len == 0 {
            0
        } else if r.numer > 0 {
            i32::MAX as int
        } else {
            i32::MIN as int
        }
    } else {
        saturate_i32(trunc_div(len * r.numer, r.denom as int))
    }
}

/// The position `len * ratio` along an edge of length `len`, kept on the
/// edge: within `0..=len - 1` (0 for an empty edge).
pub open spec fn edge_position(len: u32, r: EdgeRatio) -> int {
    let v = scaled_offset(len, r);
    if len == 0 || v < 0 {
        0
    } else if v >= len {
        len - 1
    } else {
        v
    }
}

/// Where the cursor enters `target` when it left a monitor over `from_edge`
/// at position `ratio` along that edge: on the opposite edge of the target,
/// at the same relative position, kept on the target.
pub open spec fn entry_point(from_edge: GridEdge, target: Monitor, ratio: EdgeRatio) -> (int, int) {
    match from_edge {
        GridEdge::Right => (0, edge_position(target.height, ratio)),
        GridEdge::Left => ((target.width as i32) - 1, edge_position(target.height, ratio)),
        GridEdge::Bottom => (edge_position(target.width, ratio), 0),
        GridEdge::Top => (edge_position(target.width, ratio), (target.height as i32) - 1),
    }
}

/// The entry point lies on the target monitor, for any ratio, whenever the
/// target's sides are at least 1 and fit in `i32`.
pub proof fn law_entry_point_on_target(from_edge: GridEdge, target: Monitor, ratio: EdgeRatio)
    requires
        1 <= target.width <= i32::MAX,
        1 <= target.height <= i32::MAX,
    ensures
        0 <= entry_point(from_edge, target, ratio).0 < target.width,
        0 <= entry_point(from_edge, target, ratio).1 < target.height,
{
    assert(target.width as i32 == target.width);
    assert(target.height as i32 == target.height);
}

/// A position `ratio` of the way along an edge of length `len` (measured
/// from the top or left end, `0 <= ratio <= 1`) lands on the pixel where
/// that fraction of the edge begins: `p / len <= ratio < (p + 1) / len`, or
/// the last pixel when the ratio reaches the far end.
proof fn lemma_edge_position_floor(len: u32, r: EdgeRatio)
    requires
        1 <= len <= i32::MAX,
        0 <= r.numer <= r.denom,
        1 <= r.denom,
    ensures
        0 <= edge_position(len, r) < len,
        edge_position(len, r) * r.denom <= len * r.numer,
        edge_position(len, r) == len - 1 || len * r.numer < (edge_position(len, r) + 1) * r.denom,
{
    let a: int = len * r.numer;
    let d: int = r.denom as int;
    let q: int = a / d;
    assert(0 <= a <= len * d) by (nonlinear_arith)
        requires
            a == len * r.numer,
            d == r.denom,
            0 <= r.numer <= r.denom,
            len >= 1,
    ;
    assert(q * d <= a < (q + 1) * d && 0 <= q <= len) by (nonlinear_arith)
        requires
            q == a / d,
            d >= 1,
            0 <= a <= len * d,
            len >= 1,
    ;
    assert(trunc_div(a, d) == q);
    assert(scaled_offset(len, r) == q);
    if q >= len {
        assert((len - 1) * d <= q * d) by (nonlinear_arith)
            requires
                len - 1 <= q,
                d >= 1,
        ;
    }
}

/// The cursor enters the target at the same relative position along the
/// edge it crosses as the one the client reported (0 = top or left end):
/// for a ratio `numer / denom` within `0..=1`, the coordinate along the
/// target's edge (`x` across a top or bottom edge, `y` across a side) is the
/// pixel `p` with `p * denom <= len * numer < (p + 1) * denom`, or the last
/// pixel at the far end; the other coordinate is the target's opposite
/// edge.
pub proof fn law_entry_point_keeps_ratio(from_edge: GridEdge, target: Monitor, ratio: EdgeRatio)
    requires
        1 <= target.width <= i32::MAX,
        1 <= target.height <= i32::MAX,
        0 <= ratio.numer <= ratio.denom,
        1 <= ratio.denom,
    ensures
        ({
            let e = entry_point(from_edge, target, ratio);
            let (p, len) = match from_edge {
                GridEdge::Top | GridEdge::Bottom => (e.0, target.width as int),
                GridEdge::Left | GridEdge::Right => (e.1, target.height as int),
            };
            &&& 0 <= p < len
            &&& p * ratio.denom <= len * ratio.numer
            &&& p == len - 1 || len * ratio.numer < (p + 1) * ratio.denom
        }),
        from_edge == GridEdge::Top ==> entry_point(from_edge, target, ratio).1 == target.height - 1,
        from_edge == GridEdge::Bottom ==> entry_point(from_edge, target, ratio).1 == 0,
        from_edge == GridEdge::Left ==> entry_point(from_edge, target, ratio).0 == target.width - 1,
        from_edge == GridEdge::Right ==> entry_point(from_edge, target, ratio).0 == 0,
{
    lemma_edge_position_floor(target.width, ratio);
    lemma_edge_position_floor(target.height, ratio);
    assert(target.width as i32 == target.width);
    assert(target.height as i32 == target.height);
}

/// The position `len * ratio` along an edge of length `len`, kept on the
/// edge.
pub fn edge_offset(len: u32, r: EdgeRatio) -> (v: i32)
    ensures
        v == edge_position(len, r),
{
    let v = scale_offset(len, r);
    if len == 0 || v < 0 {
        0
    } else if v as u32 >= len {
        (len - 1) as i32
    } else {
        v
    }
}

/// The offset `len * ratio` along an edge of length `len`.
pub fn scale_offset(len: u32, r: EdgeRatio) -> (v: i32)
    ensures
        v == scaled_offset(len, r),
{
    if r.denom == 0 {
        if r.numer == 0 || len == 0 {
            0
        } else if r.numer > 0 {
            i32::MAX
        } else {
            i32::MIN
        }
    } else {
        let num_mag: u64 = if r.numer >= 0 { r.numer as u64 } else { (-(r.numer as i64)) as u64 };
        let den_mag: u64 = if r.denom >= 0 { r.denom as u64 } else { (-(r.denom as i64)) as u64 };
        let len64 = len as u64;
        assert(len64 * num_mag <= 0xffff_ffff * 0x8000_0000) by (nonlinear_arith)
            requires
                len64 <= 0xffff_ffff,
                num_mag <= 0x8000_0000,
        ;
        let prod: u64 = len64 * num_mag;
        let q: u64 = prod / den_mag;
        assert(q <= prod) by (nonlinear_arith)
            requires
                den_mag >= 1,
                q == prod / den_mag,
        ;
        let negative = (r.numer < 0) != (r.denom < 0) && r.numer != 0 && len != 0;
        proof {
            let a = len * r.numer;
            let b = r.denom as int;
            assert(prod == (if a >= 0 { a } else { -a })) by (nonlinear_arith)
                requires
                    prod == len64 * num_mag,
                    len64 == len,
                    num_mag == (if r.numer >= 0 { r.numer as int } else { -r.numer }),
                    a == len * r.numer,
                    len >= 0,
            ;
            assert(a == 0 <==> (r.numer == 0 || len == 0)) by (nonlinear_arith)
                requires
                    a == len * r.numer,
                    len >= 0,
            ;
            assert((a >= 0) <==> (r.numer >= 0 || len == 0)) by (nonlinear_arith)
                requires
                    a == len * r.numer,
                    len >= 0,
            ;
        }
        if negative {
            if q > 0x8000_0000 {
                i32::MIN
            } else {
                (-(q as i64)) as i32
            }
        } else {
            if q > 0x7fff_ffff {
                i32::MAX
            } else {
                q as i32
            }
        }
    }
}

/// Where the cursor enters `target` after leaving a monitor over
/// `from_edge` at `ratio` along that edge: the opposite edge of the target,
/// at the same relative position.
pub fn compute_entry_point(from_edge: GridEdge, target: &Monitor, ratio: EdgeRatio) -> (r: (i32, i32))
    requires
        entry_fits(from_edge, *target),
    ensures
        r.0 == entry_point(from_edge, *target, ratio).0,
        r.1 == entry_point(from_edge, *target, ratio).1,
{
    match from_edge {
        GridEdge::Right => (0, edge_offset(target.height, ratio)),
        GridEdge::Left => {
            let w = target.width as i32;
            let width = target.width;
            assert(w != i32::MIN) by (bit_vector)
                requires
                    w == width as i32,
                    width != 0x8000_0000u32,
            ;
            (w - 1, edge_offset(target.height, ratio))
        },
        GridEdge::Bottom => (edge_offset(target.width, ratio), 0),
        GridEdge::Top => {
            let h = target.height as i32;
            let height = target.height;
            assert(h != i32::MIN) by (bit_vector)
                requires
                    h == height as i32,
                    height != 0x8000_0000u32,
            ;
            (edge_offset(target.width, ratio), h - 1)
        },
    }
}

/// The focus on the server's first monitor, if the server has a monitor.
pub fn initial_focus(server_id: u128, monitors: &Vec<Monitor>) -> (f: Option<Focus>)
    ensures
        monitors@.len() == 0 ==> f is None,
        monitors@.len() > 0 ==> f == Some(Focus { machine_id: server_id, monitor_id: monitors@[0].id, is_local: true }),
{
    if monitors.len() == 0 {
        None
    } else {
        Some(Focus { machine_id: server_id, monitor_id: monitors[0].id, is_local: true })
    }
}

/// The server's monitors that are not yet in the grid (by name and
/// machine), each appended in row 0 at the column equal to the number of
/// monitors before it.
pub open spec fn merged_monitors(ms: Seq<Monitor>, locals: Seq<Monitor>) -> Seq<Monitor>
    decreases locals.len(),
{
    if locals.len() == 0 {
        ms
    } else {
        let prev = merged_monitors(ms, locals.drop_last());
        let l = locals.last();
        if exists|k: int| 0 <= k < prev.len() && (#[trigger] prev[k]).name@ == l.name@ && prev[k].machine_id == l.machine_id {
            prev
        } else {
            prev.push(Monitor { grid_col: Some(prev.len() as u32), grid_row: Some(0u32), ..l })
        }
    }
}

/// Whether some monitor of `ms` has this name and machine.
fn has_monitor_named(ms: &Vec<Monitor>, name: &String, machine_id: u128) -> (b: bool)
    ensures
        b == exists|k: int| 0 <= k < ms@.len() && (#[trigger] ms@[k]).name@ == name@ && ms@[k].machine_id == machine_id,
{
    let mut i: usize = 0;
    while i < ms.len()
        invariant
            i <= ms@.len(),
            forall|k: int| 0 <= k < i ==> !((#[trigger] ms@[k]).name@ == name@ && ms@[k].machine_id == machine_id),
        decreases ms.len() - i,
    {
        if ms[i].name == *name && ms[i].machine_id == machine_id {
            return true;
        }
        i += 1;
    }
    false
}

/// Add the server's own monitors to the grid where they are not there yet
/// (matched by name and machine), each in row 0 at the next column, then
/// rebuild the transitions.
pub fn merge_local_monitors(grid: &mut Grid, monitors: &Vec<Monitor>)
    requires
        positions_bounded(old(grid).monitors@),
        old(grid).monitors@.len() + monitors@.len() < u32::MAX,
    ensures
        final(grid).monitors@ == merged_monitors(old(grid).monitors@, monitors@),
        final(grid).transitions@ == grid_transitions(final(grid).monitors@),
{
    let ghost start = grid.monitors@;
    let mut i: usize = 0;
    while i < monitors.len()
        invariant
            i <= monitors@.len(),
            grid.monitors@ == merged_monitors(start, monitors@.take(i as int)),
        decreases monitors.len() - i,
    {
        assert(monitors@.take(i + 1).drop_last() =~= monitors@.take(i as int));
        assert(monitors@.take(i + 1).last() == monitors@[i as int]);
        let mon = &monitors[i];
        if !has_monitor_named(&grid.monitors, &mon.name, mon.machine_id) {
            let col = grid.monitors.len() as u32;
            let mut m = mon.clone();
            m.grid_col = Some(col);
            m.grid_row = Some(0);
            grid.monitors.push(m);
        }
        i += 1;
    }
    assert(monitors@.take(monitors@.len() as int) =~= monitors@);
    proof {
        lemma_merged_bounded(start, monitors@);
    }
    grid.rebuild_transitions();
}

/// Merging keeps the grid positions bounded, as long as the columns it
/// hands out (one per monitor at most) stay below `u32::MAX`.
proof fn lemma_merged_bounded(ms: Seq<Monitor>, locals: Seq<Monitor>)
    requires
        positions_bounded(ms),
        ms.len() + locals.len() < u32::MAX,
    ensures
        positions_bounded(merged_monitors(ms, locals)),
        merged_monitors(ms, locals).len() <= ms.len() + locals.len(),
    decreases locals.len(),
{
    if locals.len() > 0 {
        lemma_merged_bounded(ms, locals.drop_last());
        let prev = merged_monitors(ms, locals.drop_last());
        let cur = merged_monitors(ms, locals);
        if cur != prev {
            assert forall|i: int| 0 <= i < cur.len() && (#[trigger] cur[i]).grid_col is Some && cur[i].grid_row is Some
                implies cur[i].grid_col->0 < u32::MAX && cur[i].grid_row->0 < u32::MAX by {
                if i < prev.len() {
                    assert(cur[i] == prev[i]);
                }
            }
        }
    }
}

/// The index of the client with this id, if connected.
fn find_client(cs: &Vec<ClientRecord>, id: u128) -> (r: Option<usize>)
    ensures
        r matches Some(i) ==> i < cs@.len() && cs@[i as int].id == id,
        r is None <==> !has_client(cs@, id),
{
    let mut i: usize = 0;
    while i < cs.len()
        invariant
            i <= cs@.len(),
            forall|k: int| 0 <= k < i ==> (#[trigger] cs@[k]).id != id,
        decreases cs.len() - i,
    {
        if cs[i].id == id {
            return Some(i);
        }
        i += 1;
    }
    None
}

/// The monitors of `ms` whose machine is not among `ids`.
fn remove_machines(ms: &Vec<Monitor>, ids: &Vec<u128>) -> (r: Vec<Monitor>)
    ensures
        r@ == monitors_without(ms@, ids@),
{
    let mut r: Vec<Monitor> = Vec::new();
    let mut i: usize = 0;
    while i < ms.len()
        invariant
            i <= ms@.len(),
            r@ == monitors_without(ms@.take(i as int), ids@),
        decreases ms.len() - i,
    {
        assert(ms@.take(i + 1).drop_last() =~= ms@.take(i as int));
        assert(ms@.take(i + 1).last() == ms@[i as int]);
        let mut found = false;
        let mut k: usize = 0;
        while k < ids.len()
            invariant
                i < ms@.len(),
                k <= ids@.len(),
                found == exists|q: int| 0 <= q < k && ids@[q] == ms@[i as int].machine_id,
            decreases ids.len() - k,
        {
            if ids[k] == ms[i].machine_id {
                found = true;
            }
            k += 1;
        }
        if !found {
            r.push(ms[i].clone());
        }
        i += 1;
    }
    assert(ms@.take(ms@.len() as int) =~= ms@);
    r
}

proof fn lemma_clients_except_distinct(cs: Seq<ClientRecord>, id: u128)
    requires
        client_ids_distinct(cs),
    ensures
        client_ids_distinct(clients_except(cs, id)),
        forall|k: int| 0 <= k < clients_except(cs, id).len() ==> #[trigger] clients_except(cs, id)[k].id != id
            && cs.contains(clients_except(cs, id)[k]),
    decreases cs.len(),
{
    if cs.len() > 0 {
        let p = cs.drop_last();
        assert(client_ids_distinct(p));
        lemma_clients_except_distinct(p, id);
        let r = clients_except(p, id);
        assert forall|k: int| 0 <= k < r.len() implies #[trigger] p.contains(r[k]) by {
            assert(r[k].id != id);
        }
        if cs.last().id != id {
            assert forall|k: int| 0 <= k < r.len() implies #[trigger] r[k].id != cs.last().id by {
                assert(r[k].id != id && p.contains(r[k]));
                let j = choose|j: int| 0 <= j < p.len() && p[j] == r[k];
                assert(cs[j] == p[j]);
                assert(cs[cs.len() - 1] == cs.last());
            }
            assert forall|k: int| 0 <= k < r.push(cs.last()).len() implies cs.contains(#[trigger] r.push(cs.last())[k]) by {
                if k < r.len() {
                    assert(r[k].id != id && p.contains(r[k]));
                let j = choose|j: int| 0 <= j < p.len() && p[j] == r[k];
                    assert(cs[j] == p[j]);
                    assert(r.push(cs.last())[k] == r[k]);
                } else {
                    assert(cs[cs.len() - 1] == cs.last());
                }
            }
        } else {
            assert forall|k: int| 0 <= k < r.len() implies cs.contains(#[trigger] r[k]) by {
                assert(r[k].id != id && p.contains(r[k]));
                let j = choose|j: int| 0 <= j < p.len() && p[j] == r[k];
                assert(cs[j] == p[j]);
            }
        }
    }
}

proof fn lemma_clients_not_named_distinct(cs: Seq<ClientRecord>, name: Seq<char>)
    requires
        client_ids_distinct(cs),
    ensures
        client_ids_distinct(clients_not_named(cs, name)),
        forall|k: int| 0 <= k < clients_not_named(cs, name).len()
            ==> cs.contains(#[trigger] clients_not_named(cs, name)[k]),
    decreases cs.len(),
{
    if cs.len() > 0 {
        let p = cs.drop_last();
        assert(client_ids_distinct(p));
        lemma_clients_not_named_distinct(p, name);
        let r = clients_not_named(p, name);
        assert forall|k: int| 0 <= k < r.len() implies cs.contains(#[trigger] r[k]) by {
            let j = choose|j: int| 0 <= j < p.len() && p[j] == r[k];
            assert(cs[j] == p[j]);
        }
        if cs.last().name@ != name {
            assert forall|k: int| 0 <= k < r.len() implies #[trigger] r[k].id != cs.last().id by {
                let j = choose|j: int| 0 <= j < p.len() && p[j] == r[k];
                assert(cs[j] == p[j]);
                assert(cs[cs.len() - 1] == cs.last());
            }
            assert(cs[cs.len() - 1] == cs.last());
        }
    }
}

proof fn lemma_monitors_without_bounded(ms: Seq<Monitor>, ids: Seq<u128>)
    requires
        positions_bounded(ms),
    ensures
        positions_bounded(monitors_without(ms, ids)),
        forall|k: int| 0 <= k < monitors_without(ms, ids).len() ==> !ids.contains(
            #[trigger] monitors_without(ms, ids)[k].machine_id,
        ),
    decreases ms.len(),
{
    if ms.len() > 0 {
        let p = ms.drop_last();
        assert forall|i: int| 0 <= i < p.len() && (#[trigger] p[i]).grid_col is Some && p[i].grid_row is Some
            implies p[i].grid_col->0 < u32::MAX && p[i].grid_row->0 < u32::MAX by {
            assert(ms[i] == p[i]);
        }
        lemma_monitors_without_bounded(p, ids);
        assert(ms[ms.len() - 1] == ms.last());
    }
}

impl ServerState {
    /// The state's own invariant: clients have distinct ids.
    pub open spec fn wf(self) -> bool {
        client_ids_distinct(self.clients@)
    }

    /// A server with no client connected.
    pub fn new(server_id: u128, server_monitors: Vec<Monitor>, grid: Grid, focus: Focus) -> (s: Self)
        ensures
            s.wf(),
            s.server_id == server_id,
            s.server_monitors@ == server_monitors@,
            s.grid.monitors@ == grid.monitors@,
            s.grid.transitions@ == grid.transitions@,
            s.clients@.len() == 0,
            s.focus == focus,
    {
        ServerState { server_id, server_monitors, grid, clients: Vec::new(), focus }
    }

    /// Whether a client with this id is connected.
    pub fn is_connected(&self, id: u128) -> (b: bool)
        ensures
            b == has_client(self.clients@, id),
    {
        find_client(&self.clients, id).is_some()
    }

    /// A client disconnected. If it was connected: it is removed, so are its
    /// monitors from the grid, the transitions are rebuilt, and a focus on
    /// it returns to the server's first monitor. Returns whether it was
    /// connected.
    pub fn client_disconnected(&mut self, machine_id: u128) -> (removed: bool)
        requires
            old(self).wf(),
            positions_bounded(old(self).grid.monitors@),
        ensures
            final(self).wf(),
            removed == has_client(old(self).clients@, machine_id),
            final(self).server_id == old(self).server_id,
            final(self).server_monitors@ == old(self).server_monitors@,
            !removed ==> {
                &&& final(self).clients@ == old(self).clients@
                &&& final(self).grid.monitors@ == old(self).grid.monitors@
                &&& final(self).grid.transitions@ == old(self).grid.transitions@
                &&& final(self).focus == old(self).focus
            },
            removed ==> {
                &&& final(self).clients@ == clients_except(old(self).clients@, machine_id)
                &&& final(self).grid.monitors@ == monitors_without(old(self).grid.monitors@, seq![machine_id])
                &&& final(self).grid.transitions@ == grid_transitions(final(self).grid.monitors@)
                &&& final(self).focus == if old(self).focus.machine_id == machine_id && old(self).server_monitors@.len() > 0 {
                    Focus {
                        machine_id: old(self).server_id,
                        monitor_id: old(self).server_monitors@[0].id,
                        is_local: true,
                    }
                } else {
                    old(self).focus
                }
            },
    {
        let idx = find_client(&self.clients, machine_id);
        if idx.is_none() {
            return false;
        }
        proof {
            lemma_clients_except_distinct(self.clients@, machine_id);
        }
        let mut kept: Vec<ClientRecord> = Vec::new();
        let mut i: usize = 0;
        while i < self.clients.len()
            invariant
                i <= self.clients@.len(),
                kept@ == clients_except(self.clients@.take(i as int), machine_id),
            decreases self.clients.len() - i,
        {
            assert(self.clients@.take(i + 1).drop_last() =~= self.clients@.take(i as int));
            assert(self.clients@.take(i + 1).last() == self.clients@[i as int]);
            if self.clients[i].id != machine_id {
                kept.push(self.clients[i].clone());
            }
            i += 1;
        }
        assert(self.clients@.take(self.clients@.len() as int) =~= self.clients@);
        self.clients = kept;
        let ids = vec![machine_id];
        assert(ids@ =~= seq![machine_id]);
        let monitors = remove_machines(&self.grid.monitors, &ids);
        proof {
            lemma_monitors_without_bounded(self.grid.monitors@, ids@);
        }
        self.grid.monitors = monitors;
        self.grid.rebuild_transitions();
        if self.focus.machine_id == machine_id {
            if self.server_monitors.len() > 0 {
                self.focus = Focus {
                    machine_id: self.server_id,
                    monitor_id: self.server_monitors[0].id,
                    is_local: true,
                };
            }
        }
        true
    }

    /// The monitors that stay when `machine` connects, and the ids of the
    /// machines whose monitors go (clients of the same name and itself).
    fn kept_monitors(&self, machine: &Machine) -> (r: (Vec<Monitor>, Vec<u128>))
        ensures
            r.1@ == ids_named(self.clients@, machine.name@).push(machine.id),
            r.0@ == kept_on_admission(*self, *machine),
    {
        let mut ids: Vec<u128> = Vec::new();
        let mut i: usize = 0;
        while i < self.clients.len()
            invariant
                i <= self.clients@.len(),
                ids@ == ids_named(self.clients@.take(i as int), machine.name@),
            decreases self.clients.len() - i,
        {
            assert(self.clients@.take(i + 1).drop_last() =~= self.clients@.take(i as int));
            assert(self.clients@.take(i + 1).last() == self.clients@[i as int]);
            if self.clients[i].name == machine.name {
                ids.push(self.clients[i].id);
            }
            i += 1;
        }
        assert(self.clients@.take(self.clients@.len() as int) =~= self.clients@);
        ids.push(machine.id);
        let kept = remove_machines(&self.grid.monitors, &ids);
        (kept, ids)
    }

    /// Whether admitting `machine` keeps every grid column within `u32`
    /// (the condition `admit_client` needs).
    pub fn can_admit(&self, machine: &Machine) -> (b: bool)
        ensures
            b == admission_fits(*self, *machine),
    {
        let (kept, _ids) = self.kept_monitors(machine);
        if !positions_within_bounds(&kept) {
            return false;
        }
        let mc = max_grid_col(&kept);
        if kept.len() > 0 && mc == u32::MAX {
            return false;
        }
        let start: u64 = if kept.len() == 0 { 0 } else { mc as u64 + 1 };
        let count = machine.monitors.len();
        if count as u64 > u32::MAX as u64 {
            return false;
        }
        start + count as u64 <= u32::MAX as u64
    }

    /// A client whose `Welcome` was sent joins the grid: clients with the
    /// same name (a reconnect under a new id) are dropped with their
    /// monitors, the monitors the grid held for this machine go, and the
    /// machine's monitors are placed in row 0 from the first column right
    /// of every remaining monitor; then the transitions are rebuilt. The
    /// client is not yet registered (see `register_client`). Returns the ids
    /// of the clients dropped, in order.
    pub fn admit_client(&mut self, machine: &Machine) -> (dropped: Vec<u128>)
        requires
            old(self).wf(),
            admission_fits(*old(self), *machine),
        ensures
            final(self).wf(),
            final(self).server_id == old(self).server_id,
            final(self).server_monitors@ == old(self).server_monitors@,
            final(self).focus == old(self).focus,
            final(self).clients@ == clients_not_named(old(self).clients@, machine.name@),
            dropped@ == ids_named(old(self).clients@, machine.name@),
            final(self).grid.monitors@ == kept_on_admission(*old(self), *machine) + placed_in_row(
                machine.monitors@,
                start_col(kept_on_admission(*old(self), *machine)),
            ),
            final(self).grid.transitions@ == grid_transitions(final(self).grid.monitors@),
    {
        let (kept, _ids) = self.kept_monitors(machine);
        let ghost kept_spec = kept@;
        proof {
            lemma_clients_not_named_distinct(self.clients@, machine.name@);
        }
        let mut clients: Vec<ClientRecord> = Vec::new();
        let mut dropped: Vec<u128> = Vec::new();
        let mut i: usize = 0;
        while i < self.clients.len()
            invariant
                i <= self.clients@.len(),
                clients@ == clients_not_named(self.clients@.take(i as int), machine.name@),
                dropped@ == ids_named(self.clients@.take(i as int), machine.name@),
            decreases self.clients.len() - i,
        {
            assert(self.clients@.take(i + 1).drop_last() =~= self.clients@.take(i as int));
            assert(self.clients@.take(i + 1).last() == self.clients@[i as int]);
            if self.clients[i].name != machine.name {
                clients.push(self.clients[i].clone());
            } else {
                dropped.push(self.clients[i].id);
            }
            i += 1;
        }
        assert(self.clients@.take(self.clients@.len() as int) =~= self.clients@);
        self.clients = clients;
        let mc = max_grid_col(&kept);
        let start: u32 = if kept.len() == 0 { 0 } else { mc + 1 };
        let mut monitors = kept;
        let mut j: usize = 0;
        while j < machine.monitors.len()
            invariant
                j <= machine.monitors@.len(),
                start == start_col(kept_spec),
                start + machine.monitors@.len() <= u32::MAX,
                monitors@ == kept_spec + placed_in_row(machine.monitors@, start as int).take(j as int),
            decreases machine.monitors.len() - j,
        {
            let mut m = machine.monitors[j].clone();
            m.grid_col = Some(start + j as u32);
            m.grid_row = Some(0);
            monitors.push(m);
            assert(monitors@ =~= kept_spec + placed_in_row(machine.monitors@, start as int).take(j + 1));
            j += 1;
        }
        let ghost placed = placed_in_row(machine.monitors@, start as int);
        assert(placed.take(placed.len() as int) =~= placed);
        let ghost all = monitors@;
        assert forall|k: int| 0 <= k < all.len() && (#[trigger] all[k]).grid_col is Some && all[k].grid_row is Some
            implies all[k].grid_col->0 < u32::MAX && all[k].grid_row->0 < u32::MAX by {
            if k < kept_spec.len() {
                assert(all[k] == kept_spec[k]);
            } else {
                assert(all[k] == placed[k - kept_spec.len()]);
            }
        }
        self.grid.monitors = monitors;
        self.grid.rebuild_transitions();
        dropped
    }

    /// Register a client once the grid was sent to it: it replaces a client
    /// with the same id, or is added.
    pub fn register_client(&mut self, machine: &Machine)
        requires
            old(self).wf(),
        ensures
            final(self).wf(),
            final(self).server_id == old(self).server_id,
            final(self).server_monitors@ == old(self).server_monitors@,
            final(self).grid.monitors@ == old(self).grid.monitors@,
            final(self).grid.transitions@ == old(self).grid.transitions@,
            final(self).focus == old(self).focus,
            has_client(old(self).clients@, machine.id) ==> exists|i: int|
                0 <= i < old(self).clients@.len() && old(self).clients@[i].id == machine.id
                    && final(self).clients@ == old(self).clients@.update(
                    i,
                    ClientRecord { id: machine.id, name: machine.name },
                ),
            !has_client(old(self).clients@, machine.id) ==> final(self).clients@ == old(self).clients@.push(
                ClientRecord { id: machine.id, name: machine.name },
            ),
    {
        let record = ClientRecord { id: machine.id, name: machine.name.clone() };
        match find_client(&self.clients, machine.id) {
            Some(i) => {
                self.clients.set(i, record);
                assert forall|a: int, b: int|
                    0 <= a < self.clients@.len() && 0 <= b < self.clients@.len() && a != b
                    implies (#[trigger] self.clients@[a]).id != (#[trigger] self.clients@[b]).id by {
                    assert(old(self).clients@[a].id != old(self).clients@[b].id);
                }
            },
            None => {
                self.clients.push(record);
            },
        }
    }

    /// The focus moved to a client's monitor (its `Activate` went out).
    pub fn focus_transferred(&mut self, machine_id: u128, monitor_id: u128)
        ensures
            final(self).focus == (Focus { machine_id, monitor_id, is_local: false }),
            final(self).server_id == old(self).server_id,
            final(self).server_monitors@ == old(self).server_monitors@,
            final(self).grid.monitors@ == old(self).grid.monitors@,
            final(self).grid.transitions@ == old(self).grid.transitions@,
            final(self).clients@ == old(self).clients@,
    {
        self.focus = Focus { machine_id, monitor_id, is_local: false };
    }
}

/// The outcome of a client's `EdgeHit`, as a pure function of the state.
pub open spec fn edge_hit_outcome(s: ServerState, from: u128, monitor_id: u128, edge: GridEdge, ratio: EdgeRatio) -> EdgeHitOutcome {
    match first_transition(s.grid.transitions@, monitor_id, edge) {
        None => EdgeHitOutcome::NoTransition,
        Some(t) => {
            let d = has_client(s.clients@, from);
            if t.to_machine == s.server_id {
                EdgeHitOutcome::ReturnedToServer { deactivate_sender: d }
            } else {
                match monitor_with_id(s.grid.monitors@, t.to_monitor) {
                    None => EdgeHitOutcome::TargetUnavailable { deactivate_sender: d },
                    Some(m) => if has_client(s.clients@, t.to_machine) {
                        EdgeHitOutcome::Activate {
                            deactivate_sender: d,
                            machine_id: t.to_machine,
                            monitor_id: t.to_monitor,
                            x: entry_point(edge, m, ratio).0 as i32,
                            y: entry_point(edge, m, ratio).1 as i32,
                        }
                    } else {
                        EdgeHitOutcome::TargetUnavailable { deactivate_sender: d }
                    },
                }
            }
        },
    }
}

/// The focus after a client's `EdgeHit`: on the server's monitor when the
/// transition leads there, unchanged otherwise.
pub open spec fn focus_after_edge_hit(s: ServerState, monitor_id: u128, edge: GridEdge) -> Focus {
    match first_transition(s.grid.transitions@, monitor_id, edge) {
        Some(t) => if t.to_machine == s.server_id {
            Focus { machine_id: s.server_id, monitor_id: t.to_monitor, is_local: true }
        } else {
            s.focus
        },
        None => s.focus,
    }
}

/// The entry point of an `EdgeHit` can be computed without overflow.
pub open spec fn edge_hit_fits(s: ServerState, monitor_id: u128, edge: GridEdge) -> bool {
    match first_transition(s.grid.transitions@, monitor_id, edge) {
        Some(t) => t.to_machine != s.server_id ==> match monitor_with_id(s.grid.monitors@, t.to_monitor) {
            Some(m) => entry_fits(edge, m),
            None => true,
        },
        None => true,
    }
}

/// A client message can be handled without overflow.
pub open spec fn message_fits(s: ServerState, msg: Message) -> bool {
    match msg {
        Message::EdgeHit { monitor_id, edge, .. } => edge_hit_fits(s, monitor_id, edge),
        _ => true,
    }
}

/// The ids of the clients, in order.
pub open spec fn client_ids(cs: Seq<ClientRecord>) -> Seq<u128> {
    Seq::new(cs.len(), |i: int| cs[i].id)
}

/// The transition used when the cursor reaches an edge of the server's own
/// monitor. Edge detection on the server is not implemented: the focused
/// monitor is looked up, and no transition is reported.
fn check_edge_transition(grid: &Grid, focus: &Focus) -> (r: Option<EdgeTransition>)
    ensures
        r is None,
{
    let _current = find_monitor(&grid.monitors, focus.monitor_id);
    None
}

impl ServerState {
    /// Whether `msg` from a client can be handled (see `message_fits`).
    pub fn accepts_message(&self, msg: &Message) -> (b: bool)
        ensures
            b == message_fits(*self, *msg),
    {
        match msg {
            Message::EdgeHit { monitor_id, edge, .. } => {
                match self.grid.find_transition(*monitor_id, *edge) {
                    Some(t) => {
                        if t.to_machine == self.server_id {
                            true
                        } else {
                            match find_monitor(&self.grid.monitors, t.to_monitor) {
                                Some(m) => match edge {
                                    GridEdge::Left => m.width != 0x8000_0000,
                                    GridEdge::Top => m.height != 0x8000_0000,
                                    _ => true,
                                },
                                None => true,
                            }
                        }
                    },
                    None => true,
                }
            },
            _ => true,
        }
    }

    /// The cursor left a client's monitor `monitor_id` over `edge` at
    /// `ratio` along it. With a transition for that edge, the sender is to be
    /// deactivated (when connected) and the cursor goes to the target: back
    /// to the server (the focus moves there at once), or to the target client
    /// at the entry point on the opposite edge.
    pub fn edge_hit(&mut self, from: u128, monitor_id: u128, edge: GridEdge, ratio: EdgeRatio) -> (r: EdgeHitOutcome)
        requires
            edge_hit_fits(*old(self), monitor_id, edge),
        ensures
            r == edge_hit_outcome(*old(self), from, monitor_id, edge, ratio),
            final(self).focus == focus_after_edge_hit(*old(self), monitor_id, edge),
            final(self).server_id == old(self).server_id,
            final(self).server_monitors@ == old(self).server_monitors@,
            final(self).grid.monitors@ == old(self).grid.monitors@,
            final(self).grid.transitions@ == old(self).grid.transitions@,
            final(self).clients@ == old(self).clients@,
    {
        let transition = match self.grid.find_transition(monitor_id, edge) {
            Some(t) => Some(*t),
            None => None,
        };
        match transition {
            None => EdgeHitOutcome::NoTransition,
            Some(t) => {
                let deactivate_sender = self.is_connected(from);
                if t.to_machine == self.server_id {
                    self.focus = Focus { machine_id: self.server_id, monitor_id: t.to_monitor, is_local: true };
                    EdgeHitOutcome::ReturnedToServer { deactivate_sender }
                } else {
                    let entry = match find_monitor(&self.grid.monitors, t.to_monitor) {
                        Some(m) => Some(compute_entry_point(edge, m, ratio)),
                        None => None,
                    };
                    match entry {
                        Some((x, y)) => {
                            if self.is_connected(t.to_machine) {
                                EdgeHitOutcome::Activate {
                                    deactivate_sender,
                                    machine_id: t.to_machine,
                                    monitor_id: t.to_monitor,
                                    x,
                                    y,
                                }
                            } else {
                                EdgeHitOutcome::TargetUnavailable { deactivate_sender }
                            }
                        },
                        None => EdgeHitOutcome::TargetUnavailable { deactivate_sender },
                    }
                }
            },
        }
    }

    /// The ids of the clients other than `from`, in order.
    pub fn other_clients(&self, from: u128) -> (ids: Vec<u128>)
        ensures
            ids@ == client_ids(clients_except(self.clients@, from)),
    {
        let mut ids: Vec<u128> = Vec::new();
        let mut i: usize = 0;
        while i < self.clients.len()
            invariant
                i <= self.clients@.len(),
                ids@ == client_ids(clients_except(self.clients@.take(i as int), from)),
            decreases self.clients.len() - i,
        {
            assert(self.clients@.take(i + 1).drop_last() =~= self.clients@.take(i as int));
            assert(self.clients@.take(i + 1).last() == self.clients@[i as int]);
            if self.clients[i].id != from {
                ids.push(self.clients[i].id);
            }
            assert(ids@ =~= client_ids(clients_except(self.clients@.take(i + 1), from)));
            i += 1;
        }
        assert(self.clients@.take(self.clients@.len() as int) =~= self.clients@);
        ids
    }

    /// The answer to a message from client `from`: `Pong` to a connected
    /// sender of `Ping`; a clipboard content goes to every other client; an
    /// `EdgeHit` moves the cursor (see `edge_hit`); nothing otherwise.
    pub fn handle_client_message(&mut self, from: u128, msg: &Message) -> (r: ServerAction)
        requires
            message_fits(*old(self), *msg),
        ensures
            final(self).server_id == old(self).server_id,
            final(self).server_monitors@ == old(self).server_monitors@,
            final(self).grid.monitors@ == old(self).grid.monitors@,
            final(self).grid.transitions@ == old(self).grid.transitions@,
            final(self).clients@ == old(self).clients@,
            match *msg {
                Message::Ping => {
                    &&& final(self).focus == old(self).focus
                    &&& r == if has_client(old(self).clients@, from) {
                        ServerAction::Pong { to: from }
                    } else {
                        ServerAction::Nothing
                    }
                },
                Message::Clipboard(content) => {
                    &&& final(self).focus == old(self).focus
                    &&& r matches ServerAction::Broadcast { recipients, content: c } && recipients@ == client_ids(
                        clients_except(old(self).clients@, from),
                    ) && c@ == content@
                },
                Message::EdgeHit { monitor_id, edge, position_ratio } => {
                    &&& final(self).focus == focus_after_edge_hit(*old(self), monitor_id, edge)
                    &&& r == ServerAction::EdgeHit(
                        edge_hit_outcome(*old(self), from, monitor_id, edge, position_ratio),
                    )
                },
                _ => {
                    &&& final(self).focus == old(self).focus
                    &&& r == ServerAction::Nothing
                },
            },
    {
        match msg {
            Message::Ping => {
                if self.is_connected(from) {
                    ServerAction::Pong { to: from }
                } else {
                    ServerAction::Nothing
                }
            },
            Message::EdgeHit { monitor_id, edge, position_ratio } => {
                ServerAction::EdgeHit(self.edge_hit(from, *monitor_id, *edge, *position_ratio))
            },
            Message::Clipboard(content) => {
                let recipients = self.other_clients(from);
                ServerAction::Broadcast { recipients, content: content.clone() }
            },
            _ => ServerAction::Nothing,
        }
    }

    /// Where a captured input event goes: it stays local while the server
    /// has the focus (no edge transition is detected on the server), and is
    /// forwarded to the focused client otherwise, or dropped when that
    /// client is not connected.
    pub fn handle_input_event(&mut self, event: &InputEvent) -> (r: InputRoute)
        ensures
            final(self).focus == old(self).focus,
            final(self).server_id == old(self).server_id,
            final(self).server_monitors@ == old(self).server_monitors@,
            final(self).grid.monitors@ == old(self).grid.monitors@,
            final(self).grid.transitions@ == old(self).grid.transitions@,
            final(self).clients@ == old(self).clients@,
            old(self).focus.is_local ==> r == InputRoute::Local,
            !old(self).focus.is_local && has_client(old(self).clients@, old(self).focus.machine_id) ==> r
                == (InputRoute::Forward { machine_id: old(self).focus.machine_id }),
            !old(self).focus.is_local && !has_client(old(self).clients@, old(self).focus.machine_id) ==> r
                == InputRoute::Dropped,
    {
        let focus = self.focus;
        if focus.is_local {
            if event.moves_cursor() {
                if let Some(t) = check_edge_transition(&self.grid, &focus) {
                    if t.to_machine == self.server_id {
                        self.focus = Focus { machine_id: self.server_id, monitor_id: t.to_monitor, is_local: true };
                    } else {
                        let entry = match find_monitor(&self.grid.monitors, t.to_monitor) {
                            Some(m) => Some(((m.width / 2) as i32, (m.height / 2) as i32)),
                            None => None,
                        };
                        if let Some((x, y)) = entry {
                            if self.is_connected(t.to_machine) {
                                return InputRoute::Activate {
                                    machine_id: t.to_machine,
                                    monitor_id: t.to_monitor,
                                    x,
                                    y,
                                };
                            }
                        }
                    }
                }
            }
            InputRoute::Local
        } else if self.is_connected(focus.machine_id) {
            InputRoute::Forward { machine_id: focus.machine_id }
        } else {
            InputRoute::Dropped
        }
    }
}

/// Whether every placed monitor of `ms` leaves room for a neighbour cell
/// in `u32`.
pub fn positions_within_bounds(ms: &Vec<Monitor>) -> (b: bool)
    ensures
        b == positions_bounded(ms@),
{
    let mut i: usize = 0;
    while i < ms.len()
        invariant
            i <= ms@.len(),
            forall|k: int| 0 <= k < i && (#[trigger] ms@[k]).grid_col is Some && ms@[k].grid_row is Some
                ==> ms@[k].grid_col->0 < u32::MAX && ms@[k].grid_row->0 < u32::MAX,
        decreases ms.len() - i,
    {
        match (ms[i].grid_col, ms[i].grid_row) {
            (Some(c), Some(r)) => {
                if c == u32::MAX || r == u32::MAX {
                    return false;
                }
            },
            _ => {},
        }
        i += 1;
    }
    true
}

/// The largest grid column among the monitors that have one, 0 if none.
pub fn max_grid_col(ms: &Vec<Monitor>) -> (c: u32)
    ensures
        c == max_col(ms@),
{
    let mut best: u32 = 0;
    let mut i: usize = 0;
    while i < ms.len()
        invariant
            i <= ms@.len(),
            best == max_col(ms@.take(i as int)),
        decreases ms.len() - i,
    {
        assert(ms@.take(i + 1).drop_last() =~= ms@.take(i as int));
        assert(ms@.take(i + 1).last() == ms@[i as int]);
        if let Some(c) = ms[i].grid_col {
            if c > best {
                best = c;
            }
        }
        i += 1;
    }
    assert(ms@.take(ms@.len() as int) =~= ms@);
    best
}

} // verus!

verus! {

/// No monitor kept by `monitors_without` belongs to one of the dropped machines.
pub proof fn lemma_monitors_without_excludes(ms: Seq<Monitor>, ids: Seq<u128>)
    ensures
        forall|k: int| 0 <= k < monitors_without(ms, ids).len() ==> !ids.contains(
            #[trigger] monitors_without(ms, ids)[k].machine_id,
        ),
        forall|k: int| 0 <= k < monitors_without(ms, ids).len() ==> ms.contains(
            #[trigger] monitors_without(ms, ids)[k],
        ),
    decreases ms.len(),
{
    if ms.len() > 0 {
        let p = ms.drop_last();
        lemma_monitors_without_excludes(p, ids);
        let r = monitors_without(p, ids);
        assert forall|k: int| 0 <= k < r.len() implies ms.contains(#[trigger] r[k]) by {
            assert(p.contains(r[k]));
            let j = choose|j: int| 0 <= j < p.len() && p[j] == r[k];
            assert(ms[j] == p[j]);
        }
        assert(ms[ms.len() - 1] == ms.last());
    }
}

/// The largest column bounds every placed column.
pub proof fn lemma_max_col_bounds(ms: Seq<Monitor>)
    ensures
        forall|k: int| 0 <= k < ms.len() && (#[trigger] ms[k]).grid_col is Some ==> ms[k].grid_col->0 <= max_col(ms),
        max_col(ms) >= 0,
    decreases ms.len(),
{
    if ms.len() > 0 {
        lemma_max_col_bounds(ms.drop_last());
        assert forall|k: int| 0 <= k < ms.len() && (#[trigger] ms[k]).grid_col is Some
            implies ms[k].grid_col->0 <= max_col(ms) by {
            if k < ms.len() - 1 {
                assert(ms[k] == ms.drop_last()[k]);
            }
        }
    }
}

/// When a client disconnects, none of its monitors stays in the grid, and
/// the focus no longer rests on it whenever the server has a monitor to
/// fall back to.
pub proof fn law_disconnect_clears_machine(before: ServerState, after: ServerState, machine_id: u128)
    requires
        after.grid.monitors@ == monitors_without(before.grid.monitors@, seq![machine_id]),
        after.focus == (if before.focus.machine_id == machine_id && before.server_monitors@.len() > 0 {
            Focus { machine_id: before.server_id, monitor_id: before.server_monitors@[0].id, is_local: true }
        } else {
            before.focus
        }),
        before.server_monitors@.len() > 0,
        machine_id != before.server_id,
    ensures
        forall|k: int| 0 <= k < after.grid.monitors@.len() ==> (#[trigger] after.grid.monitors@[k]).machine_id
            != machine_id,
        after.focus.machine_id != machine_id,
{
    lemma_monitors_without_excludes(before.grid.monitors@, seq![machine_id]);
    assert forall|k: int| 0 <= k < after.grid.monitors@.len() implies (#[trigger] after.grid.monitors@[k]).machine_id
        != machine_id by {
        if after.grid.monitors@[k].machine_id == machine_id {
            assert(seq![machine_id][0] == machine_id);
            assert(seq![machine_id].contains(machine_id));
        }
    }
}

/// A newly admitted machine's monitors occupy cells of their own: each sits
/// in row 0, right of every monitor that stayed in the grid, and in a
/// column of its own.
pub proof fn law_admitted_monitors_take_fresh_cells(kept: Seq<Monitor>, incoming: Seq<Monitor>)
    requires
        start_col(kept) + incoming.len() <= u32::MAX,
    ensures
        forall|p: int|
            0 <= p < incoming.len() ==> (#[trigger] placed_in_row(incoming, start_col(kept))[p]).grid_row == Some(0u32)
                && placed_in_row(incoming, start_col(kept))[p].grid_col == Some((start_col(kept) + p) as u32),
        forall|k: int, p: int|
            0 <= k < kept.len() && 0 <= p < incoming.len() && (#[trigger] kept[k]).grid_col is Some ==> kept[k].grid_col
                != (#[trigger] placed_in_row(incoming, start_col(kept))[p]).grid_col,
        forall|p: int, q: int|
            0 <= p < incoming.len() && 0 <= q < incoming.len() && p != q ==> (#[trigger] placed_in_row(
                incoming,
                start_col(kept),
            )[p]).grid_col != (#[trigger] placed_in_row(incoming, start_col(kept))[q]).grid_col,
{
    lemma_max_col_bounds(kept);
}

/// No two placed monitors share a cell after a machine is admitted, where
/// none did among the monitors that stayed: the newcomers take cells of
/// their own, right of all others.
pub proof fn law_admission_keeps_cells_distinct(kept: Seq<Monitor>, incoming: Seq<Monitor>)
    requires
        cells_distinct(kept),
        start_col(kept) + incoming.len() <= u32::MAX,
    ensures
        cells_distinct(kept + placed_in_row(incoming, start_col(kept))),
{
    law_admitted_monitors_take_fresh_cells(kept, incoming);
    let placed = placed_in_row(incoming, start_col(kept));
    let all = kept + placed;
    let n = kept.len() as int;
    assert forall|i: int, j: int|
        0 <= i < all.len() && 0 <= j < all.len() && i != j && (#[trigger] all[i]).grid_col is Some
            && all[i].grid_row is Some implies !at_cell(#[trigger] all[j], all[i].grid_col->0 as int, all[i].grid_row->0 as int) by {
        if i < n && j < n {
            assert(all[i] == kept[i] && all[j] == kept[j]);
        } else if i >= n && j >= n {
            assert(all[i] == placed[i - n] && all[j] == placed[j - n]);
        } else if i < n {
            assert(all[i] == kept[i] && all[j] == placed[j - n]);
        } else {
            assert(all[i] == placed[i - n] && all[j] == kept[j]);
            assert(placed[i - n].grid_col is Some);
        }
    }
}

} // verus!
