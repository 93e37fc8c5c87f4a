//! Coordinates and the visible rectangle.
//!
//! Positions are whole numbers of position units, a thousand to the pixel, so
//! that every peer computes the same values.

use vstd::prelude::*;

verus! {

/// Position units in one pixel.
pub const UNITS_PER_PIXEL: i64 = 1000;

/// Left edge of the playfield inside the window, in physical pixels.
pub const PLAYFIELD_X: u32 = 200;

/// Width of the playfield, in physical pixels.
pub const PLAYFIELD_WIDTH: u32 = 512;

/// Height of the playfield, in physical pixels.
pub const PLAYFIELD_HEIGHT: u32 = 768;

/// `v` limited to the range from `lo` to `hi`.
pub open spec fn spec_clamp(v: int, lo: int, hi: int) -> int {
    if v < lo {
        lo
    } else if v > hi {
        hi
    } else {
        v
    }
}

/// `v` limited to what a coordinate can hold.
pub open spec fn spec_saturate(v: int) -> i64 {
    spec_clamp(v, i64::MIN as int, i64::MAX as int) as i64
}

/// Adds two coordinates, stopping at the ends of the coordinate range.
pub(crate) fn sat_add(a: i64, b: i64) -> (sum: i64)
    ensures
        sum == spec_saturate(a + b),
{
    match a.checked_add(b) {
        Some(sum) => sum,
        None => if b > 0 {
            i64::MAX
        } else {
            i64::MIN
        },
    }
}

/// The rectangle of the world that the camera shows.
#[derive(Clone, Copy, Debug, PartialEq, Eq, Structural)]
pub struct Viewport {
    pub left: i64,
    pub right: i64,
    pub bottom: i64,
    pub top: i64,
}

impl Viewport {
    /// A viewport is well formed when it is not inside out.
    pub open spec fn wf(self) -> bool {
        self.left <= self.right && self.bottom <= self.top
    }

    /// Whether the point lies in the rectangle, edges included.
    pub open spec fn contains(self, x: i64, y: i64) -> bool {
        self.left <= x <= self.right && self.bottom <= y <= self.top
    }

    /// The viewport of the given size whose centre is the camera position.
    pub fn centered(cam_x: i64, cam_y: i64, width: u32, height: u32) -> (v: Viewport)
        ensures
            v.wf(),
            v.left == spec_saturate(cam_x - width / 2),
            v.right == spec_saturate(cam_x + width / 2),
            v.bottom == spec_saturate(cam_y - height / 2),
            v.top == spec_saturate(cam_y + height / 2),
    {
        let half_width: i64 = (width / 2) as i64;
        let half_height: i64 = (height / 2) as i64;
        Viewport {
            left: sat_add(cam_x, -half_width),
            right: sat_add(cam_x, half_width),
            bottom: sat_add(cam_y, -half_height),
            top: sat_add(cam_y, half_height),
        }
    }
}

/// Where the playfield sits in a window: its top-left corner and its size, in
/// physical pixels.
#[derive(Clone, Copy, Debug, PartialEq, Eq, Structural)]
pub struct PlayfieldLayout {
    pub x: u32,
    pub y: u32,
    pub width: u32,
    pub height: u32,
}

/// The playfield keeps its size and its distance from the left edge, and is
/// centred vertically in a window of the given height. In a window lower than
/// the playfield it starts at the top.
pub fn playfield_layout(window_height: u32) -> (layout: PlayfieldLayout)
    ensures
        layout.x == PLAYFIELD_X,
        layout.width == PLAYFIELD_WIDTH,
        layout.height == PLAYFIELD_HEIGHT,
        window_height >= PLAYFIELD_HEIGHT ==> layout.y == (window_height - PLAYFIELD_HEIGHT) / 2,
        window_height < PLAYFIELD_HEIGHT ==> layout.y == 0,
{
    let spare: u32 = if window_height >= PLAYFIELD_HEIGHT {
        window_height - PLAYFIELD_HEIGHT
    } else {
        0
    };
    PlayfieldLayout {
        x: PLAYFIELD_X,
        y: spare / 2,
        width: PLAYFIELD_WIDTH,
        height: PLAYFIELD_HEIGHT,
    }
}

/// Limits a coordinate to a range.
pub(crate) fn clamp(v: i64, lo: i64, hi: i64) -> (r: i64)
    requires
        lo <= hi,
    ensures
        r == spec_clamp(v as int, lo as int, hi as int),
        lo <= r <= hi,
{
    if v < lo {
        lo
    } else if v > hi {
        hi
    } else {
        v
    }
}

} // verus!
