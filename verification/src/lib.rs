//! A retained-mode UI compositor core: a tree of styled rectangular nodes
//! whose pixel geometry is resolved from sparse style declarations and turned
//! into vertex data, together with the texture-atlas allocator, the glyph
//! bitmap cache, the word-wrapping text layout, the double-buffered vertex
//! handoff, and the pointer-event dispatcher that routes input through the
//! tree.
//!
//! Window and GPU handling, and the external shaping and rasterization
//! engines, are collaborators outside this crate: they hand plain values in
//! (shaped glyph records, coverage bitmaps, window sizes, pointer positions)
//! and take plain values back (vertex batches, hook firing plans).
//!
//! All coordinates are integers: window-space geometry in whole pixels, text
//! metrics in 26.6 fixed point (64 units to the pixel), as the rasterizer
//! reports them.

use vstd::prelude::*;

pub mod atlas;
pub mod dual_buffer;
pub mod events;
pub mod geom;
pub mod interface;
pub mod style;
pub mod text;
pub mod text_render;
pub mod vertex;

verus! {

/// Device limitations the embedding reads off its graphics device and
/// hands to the core; the atlas sizes its backing images within the
/// two-dimensional limit.
#[derive(Clone, Copy, Debug, PartialEq, Eq, Structural)]
pub struct Limits {
    pub max_image_dimension_2d: u32,
    pub max_image_dimension_3d: u32,
}

} // verus!
