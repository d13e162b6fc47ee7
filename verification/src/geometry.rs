//! Pure 2D geometry: the inclusive point-in-rectangle test the picker uses.

use vstd::prelude::*;

verus! {

/// World-space coordinates are fixed-point integers: this many subunits make
/// one world unit, so fractional positions stay exact.
pub const SUBUNITS_PER_UNIT: i64 = 10_000;

/// A 2D position in world subunits.
#[derive(Clone, Copy, PartialEq, Eq, Structural, Debug)]
pub struct Pos {
    pub x: i64,
    pub y: i64,
}

/// A 2D extent (width and height) in world subunits.
#[derive(Clone, Copy, PartialEq, Eq, Structural, Debug)]
pub struct Extent {
    pub w: i64,
    pub h: i64,
}

/// A point lies in the axis-aligned rectangle with the given center and size
/// when each coordinate is at most half the extent away from the center, the
/// boundary itself included on all four edges. Both sides are doubled so that
/// odd extents need no division.
pub open spec fn in_rect(px: int, py: int, cx: int, cy: int, w: int, h: int) -> bool {
    &&& -w <= 2 * (px - cx) <= w
    &&& -h <= 2 * (py - cy) <= h
}

/// Inclusive point-in-rectangle test against a box given by its center and
/// its full size.
pub fn point_in_aabb(p: Pos, center: Pos, size: Extent) -> (r: bool)
    ensures
        r == in_rect(p.x as int, p.y as int, center.x as int, center.y as int, size.w as int,
            size.h as int),
{
    let dx: i128 = 2 * (p.x as i128 - center.x as i128);
    let dy: i128 = 2 * (p.y as i128 - center.y as i128);
    -(size.w as i128) <= dx && dx <= size.w as i128 && -(size.h as i128) <= dy
        && dy <= size.h as i128
}

} // verus!
