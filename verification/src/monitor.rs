//! A physical monitor attached to a machine.

use vstd::prelude::*;
use crate::ids::random_id;

verus! {

/// The scale factor 1.0, in thousandths.
pub const UNIT_SCALE: u32 = 1000;

/// A single physical monitor attached to a machine.
#[derive(Debug, PartialEq, Eq)]
pub struct Monitor {
    /// Unique identifier for this monitor.
    pub id: u128,
    /// Machine this monitor belongs to.
    pub machine_id: u128,
    /// Human-readable name (e.g. "HDMI-1", "DP-2").
    pub name: String,
    /// Width in pixels.
    pub width: u32,
    /// Height in pixels.
    pub height: u32,
    /// X offset in the machine's local coordinate space.
    pub x: i32,
    /// Y offset in the machine's local coordinate space.
    pub y: i32,
    /// Scale factor in thousandths (1000 for 100%, 1500 for 150%).
    pub scale_milli: u32,
    /// Position in the global grid (column).
    pub grid_col: Option<u32>,
    /// Position in the global grid (row).
    pub grid_row: Option<u32>,
}

impl Clone for Monitor {
    fn clone(&self) -> (r: Self)
        ensures
            r == *self,
    {
        Monitor {
            id: self.id,
            machine_id: self.machine_id,
            name: self.name.clone(),
            width: self.width,
            height: self.height,
            x: self.x,
            y: self.y,
            scale_milli: self.scale_milli,
            grid_col: self.grid_col,
            grid_row: self.grid_row,
        }
    }
}

impl Monitor {
    /// The right edge `x + width`, computed in `i32`.
    pub open spec fn spec_right(self) -> int {
        self.x + (self.width as i32)
    }

    /// The bottom edge `y + height`, computed in `i32`.
    pub open spec fn spec_bottom(self) -> int {
        self.y + (self.height as i32)
    }

    /// The bounds can be computed without leaving the range of `i32`.
    pub open spec fn bounds_fit(self) -> bool {
        i32::MIN <= self.spec_right() <= i32::MAX && i32::MIN <= self.spec_bottom() <= i32::MAX
    }

    /// Whether the point lies in the monitor's half-open rectangle.
    pub open spec fn spec_contains(self, px: int, py: int) -> bool {
        self.x <= px < self.spec_right() && self.y <= py < self.spec_bottom()
    }

    /// A new monitor with a fresh random id, scale 1.0 and no grid position.
    pub fn new(machine_id: u128, name: String, width: u32, height: u32, x: i32, y: i32) -> (m: Self)
        ensures
            m.machine_id == machine_id,
            m.name == name,
            m.width == width,
            m.height == height,
            m.x == x,
            m.y == y,
            m.scale_milli == UNIT_SCALE,
            m.grid_col is None,
            m.grid_row is None,
    {
        Monitor {
            id: random_id(),
            machine_id,
            name,
            width,
            height,
            x,
            y,
            scale_milli: UNIT_SCALE,
            grid_col: None,
            grid_row: None,
        }
    }

    /// The bounding rectangle `(x1, y1, x2, y2)` in local coordinates.
    pub fn bounds(&self) -> (r: (i32, i32, i32, i32))
        requires
            self.bounds_fit(),
        ensures
            r.0 == self.x,
            r.1 == self.y,
            r.2 == self.spec_right(),
            r.3 == self.spec_bottom(),
    {
        let w = self.width as i32;
        let h = self.height as i32;
        (self.x, self.y, self.x + w, self.y + h)
    }

    /// Whether a point (in local coordinates) lies within this monitor.
    pub fn contains(&self, px: i32, py: i32) -> (b: bool)
        requires
            self.bounds_fit(),
        ensures
            b == self.spec_contains(px as int, py as int),
    {
        let (x1, y1, x2, y2) = self.bounds();
        px >= x1 && px < x2 && py >= y1 && py < y2
    }
}

} // verus!
