//! The client's decisions: tracking the cursor while it has the focus,
//! noticing when the cursor leaves its monitor, and the connection
//! handshake. Sending, receiving and injecting stay with the caller.

use vstd::prelude::*;
use crate::grid::{find_monitor, monitor_with_id, EdgeRatio, Grid, GridEdge};
use crate::input::InputEvent;
use crate::machine::Machine;
use crate::monitor::Monitor;
use crate::protocol::Message;

verus! {

/// The client's view of the session.
#[derive(Debug)]
pub struct ClientState {
    pub machine: Machine,
    pub grid: Grid,
    /// Whether the cursor is on one of this client's monitors.
    pub active: bool,
    pub active_monitor_id: Option<u128>,
    pub cursor_x: i32,
    pub cursor_y: i32,
}

/// What to do with an input event forwarded by the server.
#[derive(Debug, Clone, Copy, PartialEq, Eq, Structural)]
pub enum InputDisposition {
    /// The client does not have the focus: the event is ignored.
    Ignore,
    /// The cursor left the active monitor: report `EdgeHit` to the server
    /// instead of injecting the event.
    EdgeHit { monitor_id: u128, edge: GridEdge, position_ratio: EdgeRatio },
    /// Inject the event locally.
    Inject,
}

/// The handshake did not go as expected.
#[derive(Debug, Clone, Copy, PartialEq, Eq, Structural)]
pub enum HandshakeError {
    ExpectedWelcome,
    ExpectedGridConfig,
}

/// Which edge the cursor at `(cx, cy)` is on, for a monitor of the given
/// size, and where along that edge: the left edge first, then right, top,
/// bottom; `None` strictly inside. The position along a side edge is the
/// row over the height, kept within `0..=1`.
pub open spec fn spec_cursor_edge(width: u32, height: u32, cx: i32, cy: i32) -> Option<(GridEdge, EdgeRatio)> {
    let w = width as i32;
    let h = height as i32;
    if cx <= 0 {
        Some((GridEdge::Left, EdgeRatio { numer: clamp(cy as int, 0, h as int) as i32, denom: h }))
    } else if cx >= w - 1 {
        Some((GridEdge::Right, EdgeRatio { numer: clamp(cy as int, 0, h as int) as i32, denom: h }))
    } else if cy <= 0 {
        Some((GridEdge::Top, EdgeRatio { numer: cx, denom: w }))
    } else if cy >= h - 1 {
        Some((GridEdge::Bottom, EdgeRatio { numer: cx, denom: w }))
    } else {
        None
    }
}

/// The edge test can compute `width - 1` and `height - 1` in `i32` where
/// it needs them.
pub open spec fn cursor_edge_fits(width: u32, height: u32, cx: i32, cy: i32) -> bool {
    &&& cx > 0 ==> width != 0x8000_0000
    &&& (cx > 0 && cx < (width as i32) - 1 && cy > 0) ==> height != 0x8000_0000
}

/// `v` limited to `[lo, hi]`.
pub open spec fn clamp(v: int, lo: int, hi: int) -> int {
    if v < lo { lo } else if v > hi { hi } else { v }
}

/// The cursor after an event, before any edge handling.
pub open spec fn moved_cursor(s: ClientState, e: InputEvent) -> (int, int) {
    match e {
        InputEvent::MouseMove { dx, dy } => (s.cursor_x + dx, s.cursor_y + dy),
        InputEvent::MouseAbsolute { x, y } => (x as int, y as int),
        _ => (s.cursor_x as int, s.cursor_y as int),
    }
}

/// The size of the active monitor, when there is one and the grid has it.
pub open spec fn active_size(s: ClientState) -> Option<(u32, u32)> {
    match s.active_monitor_id {
        Some(mid) => match monitor_with_id(s.grid.monitors@, mid) {
            Some(m) => Some((m.width, m.height)),
            None => None,
        },
        None => None,
    }
}

/// What the client does with a forwarded input event, and its state after
/// it. Inactive, it ignores the event and stays as it is. Active, the
/// cursor follows the event; on an edge of the active monitor it is clamped
/// onto the monitor, the client turns inactive and reports the edge;
/// otherwise the event is injected and the client stays on its monitor.
pub open spec fn spec_input_step(s: ClientState, e: InputEvent) -> (InputDisposition, ClientState) {
    if !s.active {
        (InputDisposition::Ignore, s)
    } else {
        let c = moved_cursor(s, e);
        let moved = ClientState { cursor_x: c.0 as i32, cursor_y: c.1 as i32, ..s };
        match active_size(s) {
            Some(size) => match spec_cursor_edge(size.0, size.1, c.0 as i32, c.1 as i32) {
                Some(hit) => (
                    InputDisposition::EdgeHit {
                        monitor_id: s.active_monitor_id->0,
                        edge: hit.0,
                        position_ratio: hit.1,
                    },
                    ClientState {
                        cursor_x: clamp(c.0, 0, size.0 - 1) as i32,
                        cursor_y: clamp(c.1, 0, size.1 - 1) as i32,
                        active: false,
                        active_monitor_id: None,
                        ..s
                    },
                ),
                None => (InputDisposition::Inject, moved),
            },
            None => (InputDisposition::Inject, moved),
        }
    }
}

/// Handling `e` stays within `i32`: the moved cursor fits, the edge test
/// fits, and a cursor that hit an edge is clamped to a non-empty range.
pub open spec fn input_fits(s: ClientState, e: InputEvent) -> bool {
    s.active ==> {
        let c = moved_cursor(s, e);
        &&& i32::MIN <= c.0 <= i32::MAX
        &&& i32::MIN <= c.1 <= i32::MAX
        &&& match active_size(s) {
            Some(size) => {
                &&& cursor_edge_fits(size.0, size.1, c.0 as i32, c.1 as i32)
                &&& spec_cursor_edge(size.0, size.1, c.0 as i32, c.1 as i32) is Some ==> 1 <= size.0 <= i32::MAX
                    && 1 <= size.1 <= i32::MAX
            },
            None => true,
        }
    }
}

/// Which edge of a `width` x `height` monitor the cursor at `(cx, cy)` is
/// on, and where along it.
pub fn check_cursor_edge(width: u32, height: u32, cx: i32, cy: i32) -> (r: Option<(GridEdge, EdgeRatio)>)
    requires
        cursor_edge_fits(width, height, cx, cy),
    ensures
        r == spec_cursor_edge(width, height, cx, cy),
{
    let w = width as i32;
    let h = height as i32;
    if cx <= 0 {
        return Some((GridEdge::Left, EdgeRatio { numer: clamp_i32(cy, 0, h), denom: h }));
    }
    assert(w != i32::MIN) by (bit_vector)
        requires
            w == width as i32,
            width != 0x8000_0000u32,
    ;
    if cx >= w - 1 {
        Some((GridEdge::Right, EdgeRatio { numer: clamp_i32(cy, 0, h), denom: h }))
    } else if cy <= 0 {
        Some((GridEdge::Top, EdgeRatio { numer: cx, denom: w }))
    } else {
        assert(h != i32::MIN) by (bit_vector)
            requires
                h == height as i32,
                height != 0x8000_0000u32,
        ;
        if cy >= h - 1 {
            Some((GridEdge::Bottom, EdgeRatio { numer: cx, denom: w }))
        } else {
            None
        }
    }
}

/// `v` limited to `[lo, hi]`.
fn clamp_i32(v: i32, lo: i32, hi: i32) -> (r: i32)
    ensures
        r == clamp(v as int, lo as int, hi as int),
{
    if v < lo {
        lo
    } else if v > hi {
        hi
    } else {
        v
    }
}

/// The server's id from its `Welcome`.
pub fn expect_welcome(msg: &Message) -> (r: Result<u128, HandshakeError>)
    ensures
        match *msg {
            Message::Welcome { server_id } => r == Ok::<u128, HandshakeError>(server_id),
            _ => r == Err::<u128, HandshakeError>(HandshakeError::ExpectedWelcome),
        },
{
    match msg {
        Message::Welcome { server_id } => Ok(*server_id),
        _ => Err(HandshakeError::ExpectedWelcome),
    }
}

/// The grid from the server's `GridConfig`.
pub fn expect_grid(msg: Message) -> (r: Result<Grid, HandshakeError>)
    ensures
        match msg {
            Message::GridConfig(g) => r matches Ok(h) && h.monitors@ == g.monitors@ && h.transitions@
                == g.transitions@,
            _ => r matches Err(e) && e == HandshakeError::ExpectedGridConfig,
        },
{
    match msg {
        Message::GridConfig(g) => Ok(g),
        _ => Err(HandshakeError::ExpectedGridConfig),
    }
}

impl ClientState {
    /// A client session that starts inactive with the cursor at the origin.
    pub fn new(machine: Machine, grid: Grid) -> (s: Self)
        ensures
            s.machine == machine,
            s.grid == grid,
            !s.active,
            s.active_monitor_id is None,
            s.cursor_x == 0,
            s.cursor_y == 0,
    {
        ClientState { machine, grid, active: false, active_monitor_id: None, cursor_x: 0, cursor_y: 0 }
    }

    /// Whether `event` can be handled (see `input_fits`).
    pub fn accepts_input(&self, event: &InputEvent) -> (b: bool)
        ensures
            b == input_fits(*self, *event),
    {
        if !self.active {
            return true;
        }
        let (cx, cy): (i64, i64) = match event {
            InputEvent::MouseMove { dx, dy } => (self.cursor_x as i64 + *dx as i64, self.cursor_y as i64 + *dy as i64),
            InputEvent::MouseAbsolute { x, y } => (*x as i64, *y as i64),
            _ => (self.cursor_x as i64, self.cursor_y as i64),
        };
        if cx < i32::MIN as i64 || cx > i32::MAX as i64 || cy < i32::MIN as i64 || cy > i32::MAX as i64 {
            return false;
        }
        let cx = cx as i32;
        let cy = cy as i32;
        let size = match self.active_monitor_id {
            Some(mid) => match find_monitor(&self.grid.monitors, mid) {
                Some(m) => Some((m.width, m.height)),
                None => None,
            },
            None => None,
        };
        match size {
            Some((w, h)) => {
                if cx > 0 && w == 0x8000_0000 {
                    return false;
                }
                if cx > 0 {
                    let wi = w as i32;
                    assert(wi != i32::MIN) by (bit_vector)
                        requires
                            wi == w as i32,
                            w != 0x8000_0000u32,
                    ;
                    if cx < wi - 1 && cy > 0 && h == 0x8000_0000 {
                        return false;
                    }
                }
                match check_cursor_edge(w, h, cx, cy) {
                    Some(_) => 1 <= w && w <= 0x7fff_ffff && 1 <= h && h <= 0x7fff_ffff,
                    None => true,
                }
            },
            None => true,
        }
    }

    /// An input event forwarded by the server, handled as `spec_input_step`
    /// says: ignored while inactive; otherwise the cursor follows the event,
    /// and when it reaches an edge of the active monitor it is clamped onto
    /// the monitor, the client turns inactive and reports the edge; else the
    /// event is to be injected.
    pub fn on_input(&mut self, event: &InputEvent) -> (r: InputDisposition)
        requires
            input_fits(*old(self), *event),
        ensures
            (r, *final(self)) == spec_input_step(*old(self), *event),
    {
        if !self.active {
            return InputDisposition::Ignore;
        }
        match event {
            InputEvent::MouseMove { dx, dy } => {
                self.cursor_x = self.cursor_x + *dx;
                self.cursor_y = self.cursor_y + *dy;
            },
            InputEvent::MouseAbsolute { x, y } => {
                self.cursor_x = *x;
                self.cursor_y = *y;
            },
            _ => {},
        }
        if let Some(monitor_id) = self.active_monitor_id {
            let info = match find_monitor(&self.grid.monitors, monitor_id) {
                Some(m) => Some((m.width, m.height)),
                None => None,
            };
            if let Some((w, h)) = info {
                if let Some((edge, ratio)) = check_cursor_edge(w, h, self.cursor_x, self.cursor_y) {
                    self.cursor_x = clamp_i32(self.cursor_x, 0, w as i32 - 1);
                    self.cursor_y = clamp_i32(self.cursor_y, 0, h as i32 - 1);
                    self.active = false;
                    self.active_monitor_id = None;
                    return InputDisposition::EdgeHit { monitor_id, edge, position_ratio: ratio };
                }
            }
        }
        InputDisposition::Inject
    }

    /// The server handed the focus to this client's monitor `monitor_id`
    /// at `(x, y)`. Returns this machine's monitor of that id, where the
    /// cursor is to be moved, if it has one.
    pub fn on_activate(&mut self, monitor_id: u128, x: i32, y: i32) -> (r: Option<Monitor>)
        ensures
            final(self).machine == old(self).machine,
            final(self).grid == old(self).grid,
            final(self).active,
            final(self).active_monitor_id == Some(monitor_id),
            final(self).cursor_x == x,
            final(self).cursor_y == y,
            r == monitor_with_id(old(self).machine.monitors@, monitor_id),
    {
        self.active = true;
        self.active_monitor_id = Some(monitor_id);
        self.cursor_x = x;
        self.cursor_y = y;
        match find_monitor(&self.machine.monitors, monitor_id) {
            Some(m) => Some(m.clone()),
            None => None,
        }
    }

    /// The server took the focus away.
    pub fn on_deactivate(&mut self)
        ensures
            final(self).machine == old(self).machine,
            final(self).grid == old(self).grid,
            !final(self).active,
            final(self).active_monitor_id is None,
            final(self).cursor_x == old(self).cursor_x,
            final(self).cursor_y == old(self).cursor_y,
    {
        self.active = false;
        self.active_monitor_id = None;
    }

    /// The server sent a new grid.
    pub fn on_grid(&mut self, grid: Grid)
        ensures
            final(self).machine == old(self).machine,
            final(self).grid == grid,
            final(self).active == old(self).active,
            final(self).active_monitor_id == old(self).active_monitor_id,
            final(self).cursor_x == old(self).cursor_x,
            final(self).cursor_y == old(self).cursor_y,
    {
        self.grid = grid;
    }
}

/// A cursor strictly inside a monitor is on no edge, and a cursor on the
/// border or outside is on one.
pub proof fn law_edge_only_at_border(width: u32, height: u32, cx: i32, cy: i32)
    ensures
        spec_cursor_edge(width, height, cx, cy) is None <==> (0 < cx < (width as i32) - 1 && 0 < cy < (height
            as i32) - 1),
{
}

/// The position an edge hit reports lies within `0..=1` along the edge, for
/// a monitor whose sides are at least 1 and fit in `i32`.
pub proof fn law_edge_ratio_within_edge(width: u32, height: u32, cx: i32, cy: i32)
    requires
        1 <= width <= i32::MAX,
        1 <= height <= i32::MAX,
    ensures
        spec_cursor_edge(width, height, cx, cy) matches Some((_, r)) ==> 0 <= r.numer <= r.denom && r.denom >= 1,
{
    assert(width as i32 == width);
    assert(height as i32 == height);
}

/// While the client does not have the focus, every input event is ignored
/// and leaves its state as it was.
pub proof fn law_inactive_input_ignored(s: ClientState, e: InputEvent)
    requires
        !s.active,
    ensures
        spec_input_step(s, e) == (InputDisposition::Ignore, s),
{
}

/// An edge hit hands the focus back: the client turns inactive, forgets its
/// active monitor, and ignores the next input event, whatever it is, until
/// the server activates it again.
pub proof fn law_edge_hit_deactivates(s: ClientState, e: InputEvent, next: InputEvent)
    requires
        spec_input_step(s, e).0 is EdgeHit,
    ensures
        !spec_input_step(s, e).1.active,
        spec_input_step(s, e).1.active_monitor_id is None,
        spec_input_step(spec_input_step(s, e).1, next) == (InputDisposition::Ignore, spec_input_step(s, e).1),
{
}

/// An event that is injected keeps the client active on the same monitor,
/// with the same machine and grid.
pub proof fn law_inject_keeps_focus(s: ClientState, e: InputEvent)
    requires
        spec_input_step(s, e).0 == InputDisposition::Inject,
    ensures
        spec_input_step(s, e).1.active,
        spec_input_step(s, e).1.active_monitor_id == s.active_monitor_id,
        spec_input_step(s, e).1.machine == s.machine,
        spec_input_step(s, e).1.grid == s.grid,
{
}

/// Where along an edge the cursor hit it is measured from the top or left
/// end: across the top or bottom edge (strictly between the side columns)
/// the ratio is `cx / width`; across a side it is `cy / height`, with the
/// row kept within the monitor's height.
pub proof fn law_edge_ratio_from_start(width: u32, height: u32, cx: i32, cy: i32)
    requires
        1 <= width <= i32::MAX,
        1 <= height <= i32::MAX,
    ensures
        spec_cursor_edge(width, height, cx, cy) matches Some((e, r)) ==> {
            &&& (e == GridEdge::Top || e == GridEdge::Bottom) ==> r.denom == width && r.numer * width == cx
                * r.denom && 0 < cx < width - 1
            &&& (e == GridEdge::Left || e == GridEdge::Right) ==> r.denom == height
                && (0 <= cy <= height ==> r.numer == cy) && (cy < 0 ==> r.numer == 0) && (cy > height
                ==> r.numer == height)
        },
        spec_cursor_edge(width, height, cx, cy) matches Some((e, _)) ==> (e == GridEdge::Left <==> cx <= 0) && (
        e == GridEdge::Right <==> 0 < cx && cx >= width - 1) && (e == GridEdge::Top <==> 0 < cx < width - 1
            && cy <= 0) && (e == GridEdge::Bottom <==> 0 < cx < width - 1 && 0 < cy && cy >= height - 1),
{
    assert(width as i32 == width);
    assert(height as i32 == height);
}

} // verus!
