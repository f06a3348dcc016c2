//! The vertex format handed to the render consumer: a position in window
//! pixel space (26.6 fixed point for text, whole pixels elsewhere), a
//! texture coordinate in atlas pixels, a color, and a type tag that tells
//! the consumer's shading logic how to draw the triangle. The conversion
//! to normalized device coordinates is the presentation layer's job.

use vstd::prelude::*;
use crate::style::Color;

verus! {

/// Draw mode tag: an untextured solid fill.
pub const VERT_TY_SOLID: i32 = 0;

/// Draw mode tag: a glyph quad sampling coverage from the atlas.
pub const VERT_TY_GLYPH: i32 = 1;

/// Draw mode tag: an image quad sampling color from the atlas.
pub const VERT_TY_IMAGE: i32 = 2;

/// Draw mode tag: a border fill.
pub const VERT_TY_BORDER: i32 = 3;

/// One vertex of the interface geometry: three position components, two
/// texture components, a color, and the draw mode tag.
#[derive(Clone, Copy, Debug, PartialEq, Eq, Structural)]
pub struct ItfVertInfo {
    pub position_x: i64,
    pub position_y: i64,
    pub position_z: i64,
    pub coord_u: u32,
    pub coord_v: u32,
    pub color: Color,
    pub ty: i32,
}

impl Default for ItfVertInfo {
    /// All components zero, solid draw mode.
    fn default() -> (v: Self)
        ensures
            v == (ItfVertInfo {
                position_x: 0,
                position_y: 0,
                position_z: 0,
                coord_u: 0,
                coord_v: 0,
                color: Color { r: 0, g: 0, b: 0, a: 0 },
                ty: VERT_TY_SOLID,
            }),
    {
        ItfVertInfo {
            position_x: 0,
            position_y: 0,
            position_z: 0,
            coord_u: 0,
            coord_v: 0,
            color: Color { r: 0, g: 0, b: 0, a: 0 },
            ty: VERT_TY_SOLID,
        }
    }
}

} // verus!
