//! Messages exchanged between the server and its clients.

use vstd::prelude::*;
use crate::grid::{EdgeRatio, Grid, GridEdge};
use crate::input::InputEvent;
use crate::machine::Machine;

verus! {

/// A message exchanged between server and clients.
#[derive(Debug)]
pub enum Message {
    /// Client announces itself and its monitors.
    Hello(Machine),
    /// Server acknowledges a client connection.
    Welcome { server_id: u128 },
    /// Server sends the current grid configuration.
    GridConfig(Grid),
    /// Server forwards an input event to a client.
    Input(InputEvent),
    /// Server tells a client to take control (the cursor entered its monitor).
    Activate { monitor_id: u128, x: i32, y: i32 },
    /// Server tells a client it no longer has focus.
    Deactivate,
    /// Client tells the server the cursor has left its screen edge.
    EdgeHit {
        monitor_id: u128,
        edge: GridEdge,
        /// Relative position along the edge (0 = top/left, 1 = bottom/right).
        position_ratio: EdgeRatio,
    },
    /// Client reports its current cursor position.
    CursorPos { x: i32, y: i32 },
    /// Clipboard content sync.
    Clipboard(String),
    /// Keepalive ping.
    Ping,
    /// Keepalive pong.
    Pong,
    /// Server requests a refresh of the client's monitors.
    RefreshMonitors,
    /// Server pushes a new grid to all clients.
    GridUpdate(Grid),
}

} // verus!
