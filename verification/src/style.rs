//! Sparse style declarations: every property is optional, and an unset
//! property means "inherit or default". Lengths are either absolute pixels
//! or a percentage of a base dimension chosen by the anchor mode.

use vstd::prelude::*;
use crate::geom::clamp_i64;
use crate::atlas::Coords;

verus! {

/// How a node's base rectangle is anchored: to the window, to the parent's
/// resolved rectangle, or to an independent floating origin.
#[derive(Clone, Copy, Debug, PartialEq, Eq, Structural)]
pub enum Position {
    Window,
    Parent,
    Floating,
}

/// A length: absolute pixels, or a percentage of a base dimension.
/// Percentages carry two fractional digits: `Pct(2550)` is 25.50 percent.
#[derive(Clone, Copy, Debug, PartialEq, Eq, Structural)]
pub enum PxOrPct {
    Px(i64),
    Pct(i64),
}

/// Truncating (toward zero) division of `v` by `d`, for `d > 0`.
pub open spec fn trunc_div(v: int, d: int) -> int {
    if v >= 0 {
        v / d
    } else {
        -((-v) / d)
    }
}

/// What `Pct(pct)` resolves to against the base dimension `base`:
/// `base * pct / 10000`, truncated toward zero and clamped to `i64`.
pub open spec fn pct_of_spec(base: int, pct: int) -> int {
    clamp_i64(trunc_div(base * pct, 10000))
}

impl PxOrPct {
    /// What this length resolves to against the base dimension `base`.
    pub open spec fn as_px_spec(self, base: int) -> int {
        match self {
            PxOrPct::Px(px) => px as int,
            PxOrPct::Pct(pct) => pct_of_spec(base, pct as int),
        }
    }

    /// Wraps an absolute pixel length.
    pub fn from_px(px: i64) -> (r: Self)
        ensures
            r == PxOrPct::Px(px),
    {
        PxOrPct::Px(px)
    }

    /// Wraps a percentage (in hundredths of a percent).
    pub fn from_pct(pct: i64) -> (r: Self)
        ensures
            r == PxOrPct::Pct(pct),
    {
        PxOrPct::Pct(pct)
    }

    /// Resolves this length against the base dimension `base`.
    pub fn as_px(&self, base: i64) -> (r: i64)
        ensures
            r == self.as_px_spec(base as int),
    {
        match self {
            PxOrPct::Px(px) => *px,
            PxOrPct::Pct(pct) => pct_of(base, *pct),
        }
    }
}

/// Computes `pct_of_spec(base, pct)` exactly: sign and magnitude are split so
/// that the division is on a nonnegative value.
pub fn pct_of(base: i64, pct: i64) -> (r: i64)
    ensures
        r == pct_of_spec(base as int, pct as int),
{
    let negative: bool = (base < 0) != (pct < 0);
    let mag_base: u128 = if base >= 0 {
        base as u128
    } else {
        (-(base as i128)) as u128
    };
    let mag_pct: u128 = if pct >= 0 {
        pct as u128
    } else {
        (-(pct as i128)) as u128
    };
    proof {
        assert(mag_base == abs_int(base as int));
        assert(mag_pct == abs_int(pct as int));
        assert(mag_base * mag_pct <= 0x8000_0000_0000_0000 * 0x8000_0000_0000_0000)
            by (nonlinear_arith)
            requires
                mag_base <= 0x8000_0000_0000_0000,
                mag_pct <= 0x8000_0000_0000_0000,
        ;
    }
    let product: u128 = mag_base * mag_pct;
    let quotient: u128 = product / 10000;
    proof {
        assert(product == abs_int(base as int) * abs_int(pct as int));
        lemma_abs_mul(base as int, pct as int);
        assert(product == abs_int(base as int * pct as int));
        lemma_trunc_div_abs(base as int * pct as int, 10000);
    }
    if !negative {
        proof {
            assert(base as int * pct as int >= 0) by (nonlinear_arith)
                requires !((base < 0) != (pct < 0));
        }
        if quotient > 0x7fff_ffff_ffff_ffff {
            i64::MAX
        } else {
            quotient as i64
        }
    } else {
        proof {
            assert(base as int * pct as int <= 0) by (nonlinear_arith)
                requires (base < 0) != (pct < 0);
        }
        if quotient >= 0x8000_0000_0000_0000 {
            i64::MIN
        } else {
            -(quotient as i64)
        }
    }
}

/// The magnitude of a mathematical integer.
pub open spec fn abs_int(v: int) -> int {
    if v >= 0 { v } else { -v }
}

/// The magnitude of a product is the product of the magnitudes.
pub proof fn lemma_abs_mul(a: int, b: int)
    ensures
        abs_int(a) * abs_int(b) == abs_int(a * b),
{
    assert(abs_int(a) * abs_int(b) == abs_int(a * b)) by (nonlinear_arith);
}

/// Truncating division acts on the magnitude: `|v| / d` with the sign of `v`.
pub proof fn lemma_trunc_div_abs(v: int, d: int)
    requires
        d > 0,
    ensures
        v >= 0 ==> trunc_div(v, d) == abs_int(v) / d,
        v < 0 ==> trunc_div(v, d) == -(abs_int(v) / d),
{
}

/// An RGBA color, one byte per channel.
#[derive(Clone, Copy, Debug, PartialEq, Eq, Structural)]
pub struct Color {
    pub r: u8,
    pub g: u8,
    pub b: u8,
    pub a: u8,
}

impl Color {
    /// Builds a color from the four channel bytes in RGBA order.
    pub fn from_srgba8(from: [u8; 4]) -> (c: Color)
        ensures
            c == (Color { r: from[0], g: from[1], b: from[2], a: from[3] }),
    {
        Color { r: from[0], g: from[1], b: from[2], a: from[3] }
    }

    /// The four channel bytes in RGBA order.
    pub fn as_srgba8(&self) -> (v: [u8; 4])
        ensures
            v@ =~= seq![self.r, self.g, self.b, self.a],
    {
        let v = [self.r, self.g, self.b, self.a];
        proof {
            assert(v@ =~= seq![self.r, self.g, self.b, self.a]);
        }
        v
    }
}

/// A caller-supplied extra vertex, in window pixel space.
#[derive(Clone, Copy, Debug, PartialEq, Eq, Structural)]
pub struct CustomVert {
    pub x: i64,
    pub y: i64,
    pub z: i64,
    pub color: Color,
}

/// Horizontal text alignment within the wrap width.
#[derive(Clone, Copy, Debug, PartialEq, Eq, Structural)]
pub enum TextAlign {
    Left,
    Center,
    Right,
}

/// How text is wrapped: not at all, word-wrapped into a width/height box,
/// or shifted along a single axis.
#[derive(Clone, Copy, Debug, PartialEq, Eq, Structural)]
pub enum WrapTy {
    NoWrap,
    Normal(i64, i64),
    ShiftX(i64),
    ShiftY(i64),
}

/// A sparse style record. Every field is optional; an unset field falls back
/// to the default noted on the resolution algorithm.
#[derive(Clone, Debug, PartialEq, Eq)]
pub struct Style {
    // Position & dimension
    pub position: Option<Position>,
    pub pos_from_t: Option<PxOrPct>,
    pub pos_from_b: Option<PxOrPct>,
    pub pos_from_l: Option<PxOrPct>,
    pub pos_from_r: Option<PxOrPct>,
    pub vert_offset: Option<PxOrPct>,
    pub hori_offset: Option<PxOrPct>,
    pub width: Option<PxOrPct>,
    pub height: Option<PxOrPct>,
    pub width_offset: Option<PxOrPct>,
    pub height_offset: Option<PxOrPct>,
    pub z_index: Option<i32>,
    // Appearance
    pub hidden: Option<bool>,
    pub back_color: Option<Color>,
    pub back_image_atlas: Option<Coords>,
    pub custom_verts: Vec<CustomVert>,
    // Non-visual
    pub pass_input: Option<bool>,
    // Outer spacing
    pub margin_t: Option<PxOrPct>,
    pub margin_b: Option<PxOrPct>,
    pub margin_l: Option<PxOrPct>,
    pub margin_r: Option<PxOrPct>,
    // Inner spacing
    pub padding_t: Option<PxOrPct>,
    pub padding_b: Option<PxOrPct>,
    pub padding_l: Option<PxOrPct>,
    pub padding_r: Option<PxOrPct>,
    pub overflow_hori: Option<bool>,
    pub overflow_vert: Option<bool>,
    pub scroll_vert: Option<PxOrPct>,
    pub scroll_hori: Option<PxOrPct>,
    // Text
    pub text: Option<String>,
    pub text_secret: Option<bool>,
    pub text_color: Option<Color>,
    pub text_height: Option<PxOrPct>,
    pub text_wrap: Option<WrapTy>,
    pub text_hori_align: Option<TextAlign>,
    pub line_spacing: Option<PxOrPct>,
    pub line_limit: Option<usize>,
    // Border
    pub border_size_t: Option<i64>,
    pub border_size_b: Option<i64>,
    pub border_size_l: Option<i64>,
    pub border_size_r: Option<i64>,
    pub border_color_t: Option<Color>,
    pub border_color_b: Option<Color>,
    pub border_color_l: Option<Color>,
    pub border_color_r: Option<Color>,
}

/// Whether a style has every field unset: anchored by default, nothing
/// drawn, no text.
#[verifier::opaque]
pub open spec fn is_default_style(s: Style) -> bool {
    &&& s.position is None
    &&& s.pos_from_t is None
    &&& s.pos_from_b is None
    &&& s.pos_from_l is None
    &&& s.pos_from_r is None
    &&& s.vert_offset is None
    &&& s.hori_offset is None
    &&& s.width is None
    &&& s.height is None
    &&& s.width_offset is None
    &&& s.height_offset is None
    &&& s.z_index is None
    &&& s.hidden is None
    &&& s.back_color is None
    &&& s.back_image_atlas is None
    &&& s.custom_verts@ =~= Seq::<CustomVert>::empty()
    &&& s.pass_input is None
    &&& s.margin_t is None
    &&& s.margin_b is None
    &&& s.margin_l is None
    &&& s.margin_r is None
    &&& s.padding_t is None
    &&& s.padding_b is None
    &&& s.padding_l is None
    &&& s.padding_r is None
    &&& s.overflow_hori is None
    &&& s.overflow_vert is None
    &&& s.scroll_vert is None
    &&& s.scroll_hori is None
    &&& s.text is None
    &&& s.text_secret is None
    &&& s.text_color is None
    &&& s.text_height is None
    &&& s.text_wrap is None
    &&& s.text_hori_align is None
    &&& s.line_spacing is None
    &&& s.line_limit is None
    &&& s.border_size_t is None
    &&& s.border_size_b is None
    &&& s.border_size_l is None
    &&& s.border_size_r is None
    &&& s.border_color_t is None
    &&& s.border_color_b is None
    &&& s.border_color_l is None
    &&& s.border_color_r is None
}

impl Default for Style {
    /// Every field unset.
    fn default() -> (s: Self)
        ensures
            is_default_style(s),
    {
        proof {
            reveal(is_default_style);
        }
        Style {
            position: None,
            pos_from_t: None,
            pos_from_b: None,
            pos_from_l: None,
            pos_from_r: None,
            vert_offset: None,
            hori_offset: None,
            width: None,
            height: None,
            width_offset: None,
            height_offset: None,
            z_index: None,
            hidden: None,
            back_color: None,
            back_image_atlas: None,
            custom_verts: Vec::new(),
            pass_input: None,
            margin_t: None,
            margin_b: None,
            margin_l: None,
            margin_r: None,
            padding_t: None,
            padding_b: None,
            padding_l: None,
            padding_r: None,
            overflow_hori: None,
            overflow_vert: None,
            scroll_vert: None,
            scroll_hori: None,
            text: None,
            text_secret: None,
            text_color: None,
            text_height: None,
            text_wrap: None,
            text_hori_align: None,
            line_spacing: None,
            line_limit: None,
            border_size_t: None,
            border_size_b: None,
            border_size_l: None,
            border_size_r: None,
            border_color_t: None,
            border_color_b: None,
            border_color_l: None,
            border_color_r: None,
        }
    }
}

} // verus!
