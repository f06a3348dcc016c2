//! Pixel-space geometry: rectangles, point containment, and the saturating
//! 64-bit arithmetic that layout resolution is defined over.
//!
//! Resolution never fails and never panics: out-of-range intermediate values
//! clamp to the `i64` range instead of overflowing. In practice window
//! coordinates stay far below the clamp.

use vstd::prelude::*;

verus! {

/// Saturating sum of `a` and `b` as a mathematical value clamped to `i64`.
pub open spec fn sat_add_spec(a: int, b: int) -> int {
    clamp_i64(a + b)
}

/// Saturating difference of `a` and `b` clamped to `i64`.
pub open spec fn sat_sub_spec(a: int, b: int) -> int {
    clamp_i64(a - b)
}

/// Clamps a mathematical integer to the `i64` range.
pub open spec fn clamp_i64(v: int) -> int {
    if v > i64::MAX { i64::MAX as int } else if v < i64::MIN { i64::MIN as int } else { v }
}

/// Adds two coordinates, clamping at the `i64` bounds.
pub fn sat_add(a: i64, b: i64) -> (r: i64)
    ensures
        r == sat_add_spec(a as int, b as int),
{
    if b >= 0 {
        if a > i64::MAX - b {
            i64::MAX
        } else {
            a + b
        }
    } else {
        if a < i64::MIN - b {
            i64::MIN
        } else {
            a + b
        }
    }
}

/// Subtracts two coordinates, clamping at the `i64` bounds.
pub fn sat_sub(a: i64, b: i64) -> (r: i64)
    ensures
        r == sat_sub_spec(a as int, b as int),
{
    if b <= 0 {
        if a > i64::MAX + b {
            i64::MAX
        } else {
            a - b
        }
    } else {
        if a < i64::MIN + b {
            i64::MIN
        } else {
            a - b
        }
    }
}

/// An axis-aligned rectangle in window pixel space. `w` and `h` may be zero
/// or negative after degenerate resolution; such a rectangle contains no
/// point.
#[derive(Clone, Copy, Debug, PartialEq, Eq, Structural)]
pub struct Rect {
    pub x: i64,
    pub y: i64,
    pub w: i64,
    pub h: i64,
}

impl Rect {
    /// Whether `(px, py)` lies inside the rectangle: at or right of the left
    /// edge and strictly left of the right edge, and likewise vertically.
    pub open spec fn contains_spec(self, px: int, py: int) -> bool {
        &&& self.x <= px < sat_add_spec(self.x as int, self.w as int)
        &&& self.y <= py < sat_add_spec(self.y as int, self.h as int)
    }

    /// Point-in-rectangle test.
    pub fn contains(&self, px: i64, py: i64) -> (r: bool)
        ensures
            r == self.contains_spec(px as int, py as int),
    {
        let right = sat_add(self.x, self.w);
        let bottom = sat_add(self.y, self.h);
        self.x <= px && px < right && self.y <= py && py < bottom
    }
}

} // verus!
