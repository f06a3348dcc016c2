//! Text layout: consuming the external shaping and rasterization engines'
//! output, caching glyph bitmaps in the atlas, word-wrapping with
//! alignment, and emitting drawable glyph quads grouped by atlas image.
//!
//! The engines themselves are collaborators: shaping hands in, per source
//! line, an ordered run of glyph records (codepoint, pen offsets,
//! advances), and rasterization hands in a coverage bitmap with bearing
//! metrics for each codepoint. All their values arrive in 26.6 fixed point
//! (64 units to the pixel), and layout keeps that unit throughout.

use vstd::prelude::*;
use crate::atlas::{atlas_load, atlas_wf, Atlas, AtlasModel, Coords, ImageKey};
use crate::geom::{sat_add, sat_add_spec, sat_sub, sat_sub_spec};
use crate::style::{trunc_div, TextAlign, WrapTy};
use crate::vertex::{ItfVertInfo, VERT_TY_GLYPH};

verus! {

/// Vertical and horizontal extents of one rasterized glyph, in 26.6 fixed
/// point, as the rasterization engine reports them.
#[derive(Clone, Copy, Debug, PartialEq, Eq, Structural)]
pub struct GlyphMetrics {
    pub width: i64,
    pub height: i64,
    pub hori_bearing_x: i64,
    pub hori_bearing_y: i64,
}

/// One glyph record from the shaping engine: the codepoint the font maps
/// the character to, pen offsets, and pen advances, in 26.6 fixed point.
#[derive(Clone, Copy, Debug, PartialEq, Eq, Structural)]
pub struct ShapedGlyph {
    pub codepoint: u32,
    pub x_offset: i64,
    pub y_offset: i64,
    pub x_advance: i64,
    pub y_advance: i64,
}

/// Where a text-rendering failure arose.
#[derive(Clone, Copy, Debug, PartialEq, Eq, Structural)]
pub enum BstTextErrorSrc {
    Shaping,
    Rasterization,
    Atlas,
}

/// What kind of text-rendering failure arose.
#[derive(Clone, Copy, Debug, PartialEq, Eq, Structural)]
pub enum BstTextErrorTy {
    CapacityExceeded,
    UnsupportedWrap,
}

/// A typed text-rendering error. It aborts only the call that raised it:
/// the glyph cache, the atlas, and any published buffer stay intact.
#[derive(Clone, Copy, Debug, PartialEq, Eq, Structural)]
pub struct BstTextError {
    pub src: BstTextErrorSrc,
    pub ty: BstTextErrorTy,
}

/// The vertical span of a line of text, derived from two reference glyphs
/// (a tall one and one with a descender, conventionally "T" and "g"):
/// `start_y` is the pen height that puts the tall glyph's top at zero, and
/// `line_height` spans from that top to the descender's bottom plus
/// `ceil(pixel_size / 6)` pixels of interline padding.
pub open spec fn line_metrics_spec(
    t_m: GlyphMetrics,
    g_m: GlyphMetrics,
    t_pos: ShapedGlyph,
    g_pos: ShapedGlyph,
    size: u32,
) -> (int, int) {
    let top = sat_sub_spec(t_pos.y_offset as int, t_m.hori_bearing_y as int);
    let bottom = sat_add_spec(
        sat_sub_spec(g_pos.y_offset as int, g_m.hori_bearing_y as int),
        g_m.height as int,
    );
    let pad = ((size + 5) / 6) * 64;
    (sat_sub_spec(0, top), sat_add_spec(sat_sub_spec(bottom, top), pad))
}

/// Computes the line's start height and line height from the two
/// reference glyphs' metrics and shaped positions.
pub fn line_metrics(
    t_m: GlyphMetrics,
    g_m: GlyphMetrics,
    t_pos: ShapedGlyph,
    g_pos: ShapedGlyph,
    size: u32,
) -> (r: (i64, i64))
    ensures
        (r.0 as int, r.1 as int) == line_metrics_spec(t_m, g_m, t_pos, g_pos, size),
{
    let top = sat_sub(t_pos.y_offset, t_m.hori_bearing_y);
    let bottom = sat_add(sat_sub(g_pos.y_offset, g_m.hori_bearing_y), g_m.height);
    let pad_px: u64 = ((size as u64) + 5) / 6;
    let pad: i64 = (pad_px * 64) as i64;
    proof {
        assert(pad == ((size + 5) / 6) * 64);
    }
    (sat_sub(0, top), sat_add(sat_sub(bottom, top), pad))
}

/// Truncating (toward zero) halving, used for centering slack.
pub fn div2(v: i64) -> (r: i64)
    ensures
        r == trunc_div(v as int, 2),
{
    if v >= 0 {
        ((v as u64) / 2) as i64
    } else {
        let mag: u128 = (-(v as i128)) as u128;
        let half: u128 = mag / 2;
        -(half as i64)
    }
}

/// The horizontal extent of one word: the least and greatest vertex x of
/// its glyph quads.
#[derive(Clone, Copy, Debug, PartialEq, Eq, Structural)]
pub struct WordExtent {
    pub min_x: i64,
    pub max_x: i64,
}

/// The index at which the line starting at word `i` ends: scanning from
/// `j`, the first word whose extent measured from the line start exceeds
/// the wrap width, or the end of the words. The extent from the line
/// start up to word `l` is `ext[l].max_x - ext[i].min_x`.
pub open spec fn first_break(ext: Seq<WordExtent>, width: int, i: int, j: int) -> int
    decreases ext.len() - j,
{
    if j < 0 || j >= ext.len() {
        ext.len() as int
    } else if sat_sub_spec(ext[j].max_x as int, ext[i].min_x as int) > width {
        j
    } else {
        first_break(ext, width, i, j + 1)
    }
}

/// The break index lies between the scan start and the end of the words.
pub proof fn lemma_first_break_range(ext: Seq<WordExtent>, width: int, i: int, j: int)
    requires
        0 <= j <= ext.len(),
    ensures
        j <= first_break(ext, width, i, j) <= ext.len(),
    decreases ext.len() - j,
{
    if j < ext.len() && !(sat_sub_spec(ext[j].max_x as int, ext[i].min_x as int) > width) {
        lemma_first_break_range(ext, width, i, j + 1);
    }
}

/// The greedy word-wrap partition: each line starts where the previous
/// ended; a word lands on the current line when its extent from the
/// line's start does not exceed the width, or when it is the first word
/// of the line — a single overlong word is never split. The result is the
/// list of word index ranges `[start, end)`, one per line.
pub open spec fn wrap_ranges(ext: Seq<WordExtent>, width: int, i: int) -> Seq<(int, int)>
    decreases ext.len() - i,
{
    if i < 0 || i >= ext.len() {
        Seq::empty()
    } else {
        let j0 = first_break(ext, width, i, i + 1);
        let j = if i < j0 <= ext.len() {
            j0
        } else {
            i + 1
        };
        seq![(i, j)] + wrap_ranges(ext, width, j)
    }
}

/// The guard inside `wrap_ranges` never fires: the break index already
/// exceeds the line start.
pub proof fn lemma_wrap_ranges_break(ext: Seq<WordExtent>, width: int, i: int)
    requires
        0 <= i < ext.len(),
    ensures
        wrap_ranges(ext, width, i) == seq![
            (i, first_break(ext, width, i, i + 1)),
        ] + wrap_ranges(ext, width, first_break(ext, width, i, i + 1)),
        i < first_break(ext, width, i, i + 1) <= ext.len(),
{
    lemma_first_break_range(ext, width, i, i + 1);
}

/// Computes the greedy word-wrap partition of the words' extents.
pub fn wrap_words(ext: &Vec<WordExtent>, width: i64) -> (r: Vec<(usize, usize)>)
    ensures
        r@.map_values(|p: (usize, usize)| (p.0 as int, p.1 as int)) == wrap_ranges(
            ext@,
            width as int,
            0,
        ),
        forall|k: int| 0 <= k < r@.len() ==> (#[trigger] r@[k]).1 <= ext@.len(),
        forall|k: int| 0 <= k < r@.len() ==> (#[trigger] r@[k]).0 < r@[k].1,
{
    let n = ext.len();
    let mut out: Vec<(usize, usize)> = Vec::new();
    let mut i: usize = 0;
    while i < n
        invariant
            n == ext@.len(),
            0 <= i <= n,
            out@.map_values(|p: (usize, usize)| (p.0 as int, p.1 as int)) + wrap_ranges(
                ext@,
                width as int,
                i as int,
            ) == wrap_ranges(ext@, width as int, 0),
            forall|k: int| 0 <= k < out@.len() ==> (#[trigger] out@[k]).1 <= ext@.len(),
            forall|k: int| 0 <= k < out@.len() ==> (#[trigger] out@[k]).0 < out@[k].1,
        decreases n - i,
    {
        // Scan for the first word that no longer fits on the line
        // starting at `i`.
        let start_min = ext[i].min_x;
        let mut j: usize = i + 1;
        let mut broke: bool = false;
        while j < n && !broke
            invariant
                n == ext@.len(),
                0 <= i < n,
                i + 1 <= j <= n,
                start_min == ext@[i as int].min_x,
                first_break(ext@, width as int, i as int, i as int + 1) == first_break(
                    ext@,
                    width as int,
                    i as int,
                    j as int,
                ),
                broke ==> j < n && sat_sub_spec(
                    ext@[j as int].max_x as int,
                    ext@[i as int].min_x as int,
                ) > width as int,
            decreases n - j, (if broke { 0int } else { 1int }),
        {
            if sat_sub(ext[j].max_x, start_min) > width {
                broke = true;
            } else {
                j = j + 1;
            }
        }
        proof {
            lemma_wrap_ranges_break(ext@, width as int, i as int);
            if broke {
                assert(first_break(ext@, width as int, i as int, j as int) == j);
            } else {
                assert(j == n);
                assert(first_break(ext@, width as int, i as int, j as int) == n);
            }
            let ghost pre = out@.map_values(|p: (usize, usize)| (p.0 as int, p.1 as int));
            assert(pre.push((i as int, j as int)) =~= pre + seq![(i as int, j as int)]);
        }
        out.push((i, j));
        proof {
            assert(out@.map_values(|p: (usize, usize)| (p.0 as int, p.1 as int))
                =~= out@.drop_last().map_values(|p: (usize, usize)| (p.0 as int, p.1 as int)).push(
                (i as int, j as int),
            ));
            assert(out@.map_values(|p: (usize, usize)| (p.0 as int, p.1 as int)) + wrap_ranges(
                ext@,
                width as int,
                j as int,
            ) =~= wrap_ranges(ext@, width as int, 0));
        }
        i = j;
    }
    proof {
        assert(out@.map_values(|p: (usize, usize)| (p.0 as int, p.1 as int)) =~= out@.map_values(
            |p: (usize, usize)| (p.0 as int, p.1 as int),
        ) + wrap_ranges(ext@, width as int, n as int));
    }
    out
}

/// Whatever the extents, the first line exists, starts at word zero and
/// holds at least that word: a single overlong first word is never split,
/// it lands on line zero (alone, when the next word already exceeds).
pub proof fn lemma_wrap_first_word(ext: Seq<WordExtent>, width: int)
    requires
        ext.len() > 0,
    ensures
        wrap_ranges(ext, width, 0).len() > 0,
        wrap_ranges(ext, width, 0)[0].0 == 0,
        wrap_ranges(ext, width, 0)[0].1 >= 1,
{
    lemma_wrap_ranges_break(ext, width, 0);
}

/// The word-wrap boundary law: when the cumulative extent from the first
/// word's start first exceeds the wrap width at word `k` with `k > 0`,
/// words `[0, k)` form line zero and word `k` starts line one.
pub proof fn lemma_wrap_boundary(ext: Seq<WordExtent>, width: int, k: int)
    requires
        0 < k < ext.len(),
        forall|j: int|
            0 < j < k ==> sat_sub_spec((#[trigger] ext[j]).max_x as int, ext[0].min_x as int)
                <= width,
        sat_sub_spec(ext[k].max_x as int, ext[0].min_x as int) > width,
    ensures
        wrap_ranges(ext, width, 0).len() >= 2,
        wrap_ranges(ext, width, 0)[0] == (0int, k),
        wrap_ranges(ext, width, 0)[1].0 == k,
{
    lemma_first_break_finds(ext, width, 0, 1, k);
    lemma_wrap_ranges_break(ext, width, 0);
    lemma_wrap_ranges_break(ext, width, k);
}

/// One glyph ready to draw: the atlas image its bitmap lives in and its
/// six quad vertices.
pub struct PlacedGlyph {
    pub img_id: u64,
    pub verts: Vec<ItfVertInfo>,
}

/// The mathematical shape of a placed glyph.
#[verifier::ext_equal]
pub ghost struct PGModel {
    pub img_id: u64,
    pub verts: Seq<ItfVertInfo>,
}

impl View for PlacedGlyph {
    type V = PGModel;

    open spec fn view(&self) -> PGModel {
        PGModel { img_id: self.img_id, verts: self.verts@ }
    }
}

/// One input glyph: its shaped record, its rasterized metrics, and its
/// coverage bitmap (RGBA bytes; a zero-size bitmap marks a word break,
/// typically a space). Bitmap width and height are in whole pixels.
pub struct GlyphInput {
    pub shaped: ShapedGlyph,
    pub metrics: GlyphMetrics,
    pub bitmap_w: u32,
    pub bitmap_h: u32,
    pub bitmap: Vec<u8>,
}

/// Whether a glyph has no pixels and so acts as a word separator.
pub open spec fn is_empty_glyph(g: GlyphInput) -> bool {
    g.bitmap_w == 0 || g.bitmap_h == 0
}

/// The atlas cache key of a glyph at a pixel size.
pub open spec fn glyph_key(size: u32, g: GlyphInput) -> ImageKey {
    ImageKey::Glyph(size, g.shaped.codepoint as u64)
}

/// The two-triangle quad of one glyph at pen position `(pen_x, pen_y)`:
/// the quad's top-left corner sits at the pen plus the shaped offsets,
/// advanced right by the horizontal bearing and up by the vertical one;
/// its size is the glyph's. Texture corners are the region's pixel
/// corners; vertex order is top-right, top-left, bottom-left, top-right,
/// bottom-left, bottom-right.
pub open spec fn glyph_quad_spec(
    pen_x: int,
    pen_y: int,
    s: ShapedGlyph,
    m: GlyphMetrics,
    c: Coords,
    color: crate::style::Color,
) -> Seq<ItfVertInfo> {
    let tlx = sat_add_spec(sat_add_spec(pen_x, s.x_offset as int), m.hori_bearing_x as int);
    let tly = sat_sub_spec(sat_add_spec(pen_y, s.y_offset as int), m.hori_bearing_y as int);
    let trx = sat_add_spec(tlx, m.width as int);
    let bly = sat_add_spec(tly, m.height as int);
    seq![
        ItfVertInfo {
            position_x: trx as i64,
            position_y: tly as i64,
            position_z: 0,
            coord_u: ((c.x + c.w) as u32),
            coord_v: c.y,
            color,
            ty: VERT_TY_GLYPH,
        },
        ItfVertInfo {
            position_x: tlx as i64,
            position_y: tly as i64,
            position_z: 0,
            coord_u: c.x,
            coord_v: c.y,
            color,
            ty: VERT_TY_GLYPH,
        },
        ItfVertInfo {
            position_x: tlx as i64,
            position_y: bly as i64,
            position_z: 0,
            coord_u: c.x,
            coord_v: ((c.y + c.h) as u32),
            color,
            ty: VERT_TY_GLYPH,
        },
        ItfVertInfo {
            position_x: trx as i64,
            position_y: tly as i64,
            position_z: 0,
            coord_u: ((c.x + c.w) as u32),
            coord_v: c.y,
            color,
            ty: VERT_TY_GLYPH,
        },
        ItfVertInfo {
            position_x: tlx as i64,
            position_y: bly as i64,
            position_z: 0,
            coord_u: c.x,
            coord_v: ((c.y + c.h) as u32),
            color,
            ty: VERT_TY_GLYPH,
        },
        ItfVertInfo {
            position_x: trx as i64,
            position_y: bly as i64,
            position_z: 0,
            coord_u: ((c.x + c.w) as u32),
            coord_v: ((c.y + c.h) as u32),
            color,
            ty: VERT_TY_GLYPH,
        },
    ]
}

/// Builds the six quad vertices of one glyph.
pub fn glyph_quad(
    pen_x: i64,
    pen_y: i64,
    s: ShapedGlyph,
    m: GlyphMetrics,
    c: Coords,
    color: crate::style::Color,
) -> (r: Vec<ItfVertInfo>)
    requires
        c.x + c.w <= u32::MAX,
        c.y + c.h <= u32::MAX,
    ensures
        r@ == glyph_quad_spec(pen_x as int, pen_y as int, s, m, c, color),
{
    let tlx = sat_add(sat_add(pen_x, s.x_offset), m.hori_bearing_x);
    let tly = sat_sub(sat_add(pen_y, s.y_offset), m.hori_bearing_y);
    let trx = sat_add(tlx, m.width);
    let bly = sat_add(tly, m.height);
    let cu: u32 = c.x + c.w;
    let cv: u32 = c.y + c.h;
    let mut r: Vec<ItfVertInfo> = Vec::new();
    r.push(ItfVertInfo { position_x: trx, position_y: tly, position_z: 0, coord_u: cu, coord_v: c.y, color, ty: VERT_TY_GLYPH });
    r.push(ItfVertInfo { position_x: tlx, position_y: tly, position_z: 0, coord_u: c.x, coord_v: c.y, color, ty: VERT_TY_GLYPH });
    r.push(ItfVertInfo { position_x: tlx, position_y: bly, position_z: 0, coord_u: c.x, coord_v: cv, color, ty: VERT_TY_GLYPH });
    r.push(ItfVertInfo { position_x: trx, position_y: tly, position_z: 0, coord_u: cu, coord_v: c.y, color, ty: VERT_TY_GLYPH });
    r.push(ItfVertInfo { position_x: tlx, position_y: bly, position_z: 0, coord_u: c.x, coord_v: cv, color, ty: VERT_TY_GLYPH });
    r.push(ItfVertInfo { position_x: trx, position_y: bly, position_z: 0, coord_u: cu, coord_v: cv, color, ty: VERT_TY_GLYPH });
    proof {
        assert(r@ =~= glyph_quad_spec(pen_x as int, pen_y as int, s, m, c, color));
    }
    r
}

/// One batch of the output: every glyph quad that samples from one
/// backing image.
pub struct VertBatch {
    pub img_id: u64,
    pub verts: Vec<ItfVertInfo>,
}

/// The mathematical shape of a batch.
#[verifier::ext_equal]
pub ghost struct BatchModel {
    pub img_id: u64,
    pub verts: Seq<ItfVertInfo>,
}

impl View for VertBatch {
    type V = BatchModel;

    open spec fn view(&self) -> BatchModel {
        BatchModel { img_id: self.img_id, verts: self.verts@ }
    }
}

/// The view of a batch list.
pub open spec fn batches_view(v: Seq<VertBatch>) -> Seq<BatchModel> {
    v.map_values(|b: VertBatch| b@)
}

/// Index of the first batch for image `img`, from position `k`.
pub open spec fn batch_index_from(bs: Seq<BatchModel>, img: u64, k: int) -> Option<int>
    decreases bs.len() - k,
{
    if k < 0 || k >= bs.len() {
        None
    } else if bs[k].img_id == img {
        Some(k)
    } else {
        batch_index_from(bs, img, k + 1)
    }
}

/// Appends verts for image `img`: to its existing batch, else as a new
/// batch at the end — batches appear in first-use order and stay unique
/// per image.
pub open spec fn add_to_batches(bs: Seq<BatchModel>, img: u64, vs: Seq<ItfVertInfo>) -> Seq<
    BatchModel,
> {
    match batch_index_from(bs, img, 0) {
        Some(k) => bs.update(k, BatchModel { img_id: img, verts: bs[k].verts + vs }),
        None => bs.push(BatchModel { img_id: img, verts: vs }),
    }
}

/// Appends verts for image `img` into the batch list.
pub fn add_batch(out: &mut Vec<VertBatch>, img: u64, vs: Vec<ItfVertInfo>)
    ensures
        batches_view(final(out)@) == add_to_batches(batches_view(old(out)@), img, vs@),
{
    let ghost bs0 = batches_view(out@);
    let n = out.len();
    let mut k: usize = 0;
    while k < n
        invariant
            n == out@.len(),
            0 <= k <= n,
            bs0 == batches_view(out@),
            bs0 == batches_view(old(out)@),
            batch_index_from(bs0, img, 0) == batch_index_from(bs0, img, k as int),
        decreases n - k,
    {
        proof {
            assert(bs0[k as int] == out@[k as int]@);
        }
        if out[k].img_id == img {
            proof {
                assert(batch_index_from(bs0, img, k as int) == Some(k as int));
            }
            let ghost before = out@;
            let b = out.remove(k);
            let mut verts = b.verts;
            let mut more = vs;
            verts.append(&mut more);
            out.insert(k, VertBatch { img_id: b.img_id, verts });
            proof {
                let target = add_to_batches(bs0, img, vs@);
                assert(target == bs0.update(
                    k as int,
                    BatchModel { img_id: img, verts: bs0[k as int].verts + vs@ },
                ));
                assert(out@.len() == before.len());
                assert forall|t: int| 0 <= t < out@.len() implies batches_view(out@)[t]
                    == target[t] by {
                    assert(batches_view(out@)[t] == out@[t]@);
                    assert(bs0[t] == before[t]@);
                    if t == k as int {
                        assert(out@[t]@.img_id == img);
                        assert(out@[t]@.verts =~= bs0[t].verts + vs@);
                        assert(out@[t]@ =~= target[t]);
                    } else {
                        assert(out@[t] == before[t]);
                    }
                }
                assert(batches_view(out@) =~= target);
                assert(bs0 == batches_view(old(out)@));
                assert(batches_view(out@) == add_to_batches(batches_view(old(out)@), img, vs@));
            }
            return ;
        }
        k = k + 1;
    }
    let ghost before = out@;
    out.push(VertBatch { img_id: img, verts: vs });
    proof {
        let target = add_to_batches(bs0, img, vs@);
        assert(batch_index_from(bs0, img, n as int) is None);
        assert forall|t: int| 0 <= t < out@.len() implies batches_view(out@)[t] == target[t] by {
            assert(batches_view(out@)[t] == out@[t]@);
            if t < n {
                assert(out@[t] == before[t]);
                assert(bs0[t] == before[t]@);
            } else {
                assert(out@[t]@ =~= target[t]);
            }
        }
        assert(batches_view(out@) =~= target);
    }
}

/// One step of the glyph-region fold: an empty glyph needs no region; any
/// other glyph is loaded into (or found in) the atlas under its key. A
/// capacity failure surfaces as an atlas text error and leaves the atlas
/// as it was.
pub open spec fn regions_step(a: AtlasModel, size: u32, g: GlyphInput) -> (Result<
    Option<Coords>,
    BstTextError,
>, AtlasModel) {
    if is_empty_glyph(g) {
        (Ok(None), a)
    } else {
        let lr = atlas_load(a, glyph_key(size, g), g.bitmap_w as int, g.bitmap_h as int);
        match lr.0 {
            Ok(c) => (Ok(Some(c)), lr.1),
            Err(_) => (
                Err(
                    BstTextError {
                        src: BstTextErrorSrc::Atlas,
                        ty: BstTextErrorTy::CapacityExceeded,
                    },
                ),
                lr.1,
            ),
        }
    }
}

/// The glyph-region fold over one line, from glyph `j`.
pub open spec fn regions_line(a: AtlasModel, size: u32, line: Seq<GlyphInput>, j: int) -> (Result<
    Seq<Option<Coords>>,
    BstTextError,
>, AtlasModel)
    decreases line.len() - j,
{
    if j < 0 || j >= line.len() {
        (Ok(Seq::empty()), a)
    } else {
        let st = regions_step(a, size, line[j]);
        match st.0 {
            Err(e) => (Err(e), st.1),
            Ok(c0) => {
                let rest = regions_line(st.1, size, line, j + 1);
                match rest.0 {
                    Ok(rs) => (Ok(seq![c0] + rs), rest.1),
                    Err(e) => (Err(e), rest.1),
                }
            },
        }
    }
}

/// The glyph-region fold over all lines, from line `li`.
pub open spec fn regions_lines(a: AtlasModel, size: u32, lines: Seq<Vec<GlyphInput>>, li: int) -> (
    Result<Seq<Seq<Option<Coords>>>, BstTextError>,
    AtlasModel,
)
    decreases lines.len() - li,
{
    if li < 0 || li >= lines.len() {
        (Ok(Seq::empty()), a)
    } else {
        let lr = regions_line(a, size, lines[li]@, 0);
        match lr.0 {
            Err(e) => (Err(e), lr.1),
            Ok(rl) => {
                let rest = regions_lines(lr.1, size, lines, li + 1);
                match rest.0 {
                    Ok(rs) => (Ok(seq![rl] + rs), rest.1),
                    Err(e) => (Err(e), rest.1),
                }
            },
        }
    }
}

/// Caches every non-empty glyph's bitmap in the atlas and returns each
/// glyph's region, line by line: `None` for a separator glyph, the stored
/// or freshly packed region otherwise. A glyph already cached under its
/// (size, codepoint) key is not uploaded again. On a capacity failure the
/// call aborts with the regions loaded so far kept in the atlas — every
/// cached region stays valid.
pub fn ensure_regions(atlas: &mut Atlas, size: u32, lines: &Vec<Vec<GlyphInput>>) -> (r: Result<
    Vec<Vec<Option<Coords>>>,
    BstTextError,
>)
    requires
        atlas_wf(old(atlas)@),
    ensures
        atlas_wf(final(atlas)@),
        final(atlas)@.max_dim == old(atlas)@.max_dim,
        final(atlas)@ == regions_lines(old(atlas)@, size, lines@, 0).1,
        match r {
            Ok(v) => regions_lines(old(atlas)@, size, lines@, 0).0 == Ok::<
                Seq<Seq<Option<Coords>>>,
                BstTextError,
            >(v@.map_values(|l: Vec<Option<Coords>>| l@)),
            Err(e) => regions_lines(old(atlas)@, size, lines@, 0).0 == Err::<
                Seq<Seq<Option<Coords>>>,
                BstTextError,
            >(e),
        },
        match r {
            Ok(v) => forall|li: int, j: int|
                0 <= li < v@.len() && 0 <= j < v@[li]@.len() ==> match #[trigger] v@[li]@[j] {
                    Some(c) => c.x + c.w <= u32::MAX && c.y + c.h <= u32::MAX,
                    None => true,
                },
            Err(_) => true,
        },
{
    let ghost a0 = atlas@;
    let ghost linesv = lines@;
    let mut acc: Vec<Vec<Option<Coords>>> = Vec::new();
    let ln = lines.len();
    let mut li: usize = 0;
    while li < ln
        invariant
            atlas_wf(atlas@),
            atlas@.max_dim == a0.max_dim,
            a0.max_dim <= u32::MAX,
            a0 == old(atlas)@,
            linesv == lines@,
            ln == lines@.len(),
            0 <= li <= ln,
            acc@.len() == li,
            regions_lines(a0, size, linesv, 0).1 == regions_lines(atlas@, size, linesv, li as int).1,
            ({
                let rest = regions_lines(atlas@, size, linesv, li as int).0;
                match rest {
                    Ok(rs) => regions_lines(a0, size, linesv, 0).0 == Ok::<
                        Seq<Seq<Option<Coords>>>,
                        BstTextError,
                    >(acc@.map_values(|l: Vec<Option<Coords>>| l@) + rs),
                    Err(e) => regions_lines(a0, size, linesv, 0).0 == Err::<
                        Seq<Seq<Option<Coords>>>,
                        BstTextError,
                    >(e),
                }
            }),
            forall|q: int, j: int|
                0 <= q < acc@.len() && 0 <= j < acc@[q]@.len() ==> match #[trigger] acc@[q]@[j] {
                    Some(c) => c.x + c.w <= u32::MAX && c.y + c.h <= u32::MAX,
                    None => true,
                },
        decreases ln - li,
    {
        let ghost a_li = atlas@;
        let line = &lines[li];
        let gn = line.len();
        let mut row: Vec<Option<Coords>> = Vec::new();
        let mut j: usize = 0;
        while j < gn
            invariant
                atlas_wf(atlas@),
                atlas@.max_dim == a0.max_dim,
                a0.max_dim <= u32::MAX,
                a0 == old(atlas)@,
                linesv == lines@,
                ln == lines@.len(),
                li < ln,
                acc@.len() == li,
                line == &lines@[li as int],
                gn == line@.len(),
                0 <= j <= gn,
                row@.len() == j,
                regions_lines(a0, size, linesv, 0).1 == regions_lines(
                    a_li,
                    size,
                    linesv,
                    li as int,
                ).1,
                ({
                    let rest = regions_lines(a_li, size, linesv, li as int).0;
                    match rest {
                        Ok(rs) => regions_lines(a0, size, linesv, 0).0 == Ok::<
                            Seq<Seq<Option<Coords>>>,
                            BstTextError,
                        >(acc@.map_values(|l: Vec<Option<Coords>>| l@) + rs),
                        Err(e) => regions_lines(a0, size, linesv, 0).0 == Err::<
                            Seq<Seq<Option<Coords>>>,
                            BstTextError,
                        >(e),
                    }
                }),
                regions_line(a_li, size, line@, 0).1 == regions_line(atlas@, size, line@, j as int).1,
                ({
                    let rest = regions_line(atlas@, size, line@, j as int).0;
                    match rest {
                        Ok(rs) => regions_line(a_li, size, line@, 0).0 == Ok::<
                            Seq<Option<Coords>>,
                            BstTextError,
                        >(row@ + rs),
                        Err(e) => regions_line(a_li, size, line@, 0).0 == Err::<
                            Seq<Option<Coords>>,
                            BstTextError,
                        >(e),
                    }
                }),
                forall|q: int|
                    0 <= q < row@.len() ==> match #[trigger] row@[q] {
                        Some(c) => c.x + c.w <= u32::MAX && c.y + c.h <= u32::MAX,
                        None => true,
                    },
            decreases gn - j,
        {
            let g = &line[j];
            let ghost a_j = atlas@;
            let ghost row0 = row@;
            let pushed: Option<Coords> = if g.bitmap_w == 0 || g.bitmap_h == 0 {
                None
            } else {
                let key = ImageKey::Glyph(size, g.shaped.codepoint as u64);
                proof {
                    crate::atlas::lemma_load_coords_bounded(
                        a_j,
                        key,
                        g.bitmap_w as int,
                        g.bitmap_h as int,
                    );
                }
                match atlas.load_or_get(key, &g.bitmap, g.bitmap_w, g.bitmap_h) {
                    Ok(c) => Some(c),
                    Err(_) => {
                        let e = BstTextError {
                            src: BstTextErrorSrc::Atlas,
                            ty: BstTextErrorTy::CapacityExceeded,
                        };
                        proof {
                            assert(atlas@ == a_j);
                            assert(regions_step(a_j, size, line@[j as int]).0 == Err::<
                                Option<Coords>,
                                BstTextError,
                            >(e));
                            assert(regions_line(a_j, size, line@, j as int).0 == Err::<
                                Seq<Option<Coords>>,
                                BstTextError,
                            >(e));
                            assert(regions_line(a_j, size, line@, j as int).1 == a_j);
                            assert(regions_line(a_li, size, line@, 0).0 == Err::<
                                Seq<Option<Coords>>,
                                BstTextError,
                            >(e));
                            assert(regions_line(a_li, size, line@, 0).1 == atlas@);
                            assert(regions_lines(a_li, size, linesv, li as int).0 == Err::<
                                Seq<Seq<Option<Coords>>>,
                                BstTextError,
                            >(e));
                            assert(regions_lines(a_li, size, linesv, li as int).1 == atlas@);
                        }
                        return Err(e);
                    },
                }
            };
            row.push(pushed);
            proof {
                assert(row@ =~= row0 + seq![pushed]);
                assert(regions_step(a_j, size, line@[j as int]).0 == Ok::<
                    Option<Coords>,
                    BstTextError,
                >(pushed));
                assert(regions_step(a_j, size, line@[j as int]).1 == atlas@);
                let rest = regions_line(atlas@, size, line@, j as int + 1);
                assert(regions_line(a_j, size, line@, j as int).1 == rest.1);
                match rest.0 {
                    Ok(rs) => {
                        assert(regions_line(a_j, size, line@, j as int).0 == Ok::<
                            Seq<Option<Coords>>,
                            BstTextError,
                        >(seq![pushed] + rs));
                        assert(row0 + (seq![pushed] + rs) =~= row@ + rs);
                    },
                    Err(_) => {},
                }
            }
            j = j + 1;
        }
        proof {
            assert(regions_line(atlas@, size, line@, gn as int).0 == Ok::<
                Seq<Option<Coords>>,
                BstTextError,
            >(Seq::empty()));
            assert(row@ + Seq::<Option<Coords>>::empty() =~= row@);
            assert(regions_line(a_li, size, line@, 0).0 == Ok::<
                Seq<Option<Coords>>,
                BstTextError,
            >(row@));
            assert(regions_line(a_li, size, line@, 0).1 == atlas@);
        }
        let ghost rowv = row@;
        let ghost accm0 = acc@.map_values(|l: Vec<Option<Coords>>| l@);
        acc.push(row);
        proof {
            assert(acc@.map_values(|l: Vec<Option<Coords>>| l@) =~= accm0.push(rowv));
            let rest = regions_lines(atlas@, size, linesv, li as int + 1);
            assert(regions_lines(a_li, size, linesv, li as int).1 == rest.1);
            match rest.0 {
                Ok(rs) => {
                    assert(regions_lines(a_li, size, linesv, li as int).0 == Ok::<
                        Seq<Seq<Option<Coords>>>,
                        BstTextError,
                    >(seq![rowv] + rs));
                    assert(accm0 + (seq![rowv] + rs) =~= accm0.push(rowv) + rs);
                },
                Err(_) => {},
            }
        }
        li = li + 1;
    }
    Ok(acc)
}

/// The view of one word: its placed glyphs.
pub open spec fn word_view(w: Vec<PlacedGlyph>) -> Seq<PGModel> {
    w@.map_values(|p: PlacedGlyph| p@)
}

/// The view of one source line's words.
pub open spec fn line_view(l: Vec<Vec<PlacedGlyph>>) -> Seq<Seq<PGModel>> {
    l@.map_values(|w: Vec<PlacedGlyph>| word_view(w))
}

/// The view of all source lines' words.
pub open spec fn all_view(a: Seq<Vec<Vec<PlacedGlyph>>>) -> Seq<Seq<Seq<PGModel>>> {
    a.map_values(|l: Vec<Vec<PlacedGlyph>>| line_view(l))
}

/// Assembles one source line into words of placed glyphs, walking the
/// glyphs from `j` with the pen at `(pen_x, pen_y)`: a glyph with a region
/// is placed at the pen and joins the current word; a separator closes the
/// current word. The pen advances by the shaped advances either way. Yields
/// the line's words and the pen position after the line.
pub open spec fn build_words(
    line: Seq<GlyphInput>,
    regions: Seq<Option<Coords>>,
    color: crate::style::Color,
    j: int,
    cur: Seq<PGModel>,
    acc: Seq<Seq<PGModel>>,
    pen_x: int,
    pen_y: int,
) -> (Seq<Seq<PGModel>>, int, int)
    decreases line.len() - j,
{
    if j < 0 || j >= line.len() {
        (
            if cur.len() > 0 {
                acc.push(cur)
            } else {
                acc
            },
            pen_x,
            pen_y,
        )
    } else {
        let g = line[j];
        let px2 = sat_add_spec(pen_x, g.shaped.x_advance as int);
        let py2 = sat_add_spec(pen_y, g.shaped.y_advance as int);
        let ro = if 0 <= j < regions.len() {
            regions[j]
        } else {
            None
        };
        match ro {
            None => build_words(
                line,
                regions,
                color,
                j + 1,
                Seq::empty(),
                if cur.len() > 0 {
                    acc.push(cur)
                } else {
                    acc
                },
                px2,
                py2,
            ),
            Some(c) => build_words(
                line,
                regions,
                color,
                j + 1,
                cur.push(
                    PGModel {
                        img_id: c.img_id,
                        verts: glyph_quad_spec(pen_x, pen_y, g.shaped, g.metrics, c, color),
                    },
                ),
                acc,
                px2,
                py2,
            ),
        }
    }
}

/// Assembles every source line into words, threading the pen across lines
/// from `(pen_x, pen_y)`.
pub open spec fn build_all(
    lines: Seq<Vec<GlyphInput>>,
    regions: Seq<Seq<Option<Coords>>>,
    color: crate::style::Color,
    li: int,
    pen_x: int,
    pen_y: int,
    acc: Seq<Seq<Seq<PGModel>>>,
) -> Seq<Seq<Seq<PGModel>>>
    decreases lines.len() - li,
{
    if li < 0 || li >= lines.len() {
        acc
    } else {
        let regs = if 0 <= li < regions.len() {
            regions[li]
        } else {
            Seq::empty()
        };
        let r = build_words(lines[li]@, regs, color, 0, Seq::empty(), Seq::empty(), pen_x, pen_y);
        build_all(lines, regions, color, li + 1, r.1, r.2, acc.push(r.0))
    }
}

/// Builds every source line's words of placed glyph quads, starting the
/// pen at `(0, start_y)`.
pub fn build_glyph_words(
    lines: &Vec<Vec<GlyphInput>>,
    regions: &Vec<Vec<Option<Coords>>>,
    color: crate::style::Color,
    start_y: i64,
) -> (r: Vec<Vec<Vec<PlacedGlyph>>>)
    requires
        forall|li: int, j: int|
            0 <= li < regions@.len() && 0 <= j < regions@[li]@.len() ==> match #[trigger] regions@[li]@[j] {
                Some(c) => c.x + c.w <= u32::MAX && c.y + c.h <= u32::MAX,
                None => true,
            },
    ensures
        all_view(r@) == build_all(
            lines@,
            regions@.map_values(|l: Vec<Option<Coords>>| l@),
            color,
            0,
            0,
            start_y as int,
            Seq::empty(),
        ),
{
    let ghost regv = regions@.map_values(|l: Vec<Option<Coords>>| l@);
    let mut out: Vec<Vec<Vec<PlacedGlyph>>> = Vec::new();
    let mut pen_x: i64 = 0;
    let mut pen_y: i64 = start_y;
    proof {
        assert(all_view(out@) =~= Seq::<Seq<Seq<PGModel>>>::empty());
    }
    let ln = lines.len();
    let mut li: usize = 0;
    while li < ln
        invariant
            ln == lines@.len(),
            0 <= li <= ln,
            regv == regions@.map_values(|l: Vec<Option<Coords>>| l@),
            forall|q: int, j: int|
                0 <= q < regions@.len() && 0 <= j < regions@[q]@.len() ==> match #[trigger] regions@[q]@[j] {
                    Some(c) => c.x + c.w <= u32::MAX && c.y + c.h <= u32::MAX,
                    None => true,
                },
            build_all(lines@, regv, color, li as int, pen_x as int, pen_y as int, all_view(out@))
                == build_all(lines@, regv, color, 0, 0, start_y as int, Seq::empty()),
        decreases ln - li,
    {
        let line = &lines[li];
        let gn = line.len();
        let ghost px0 = pen_x as int;
        let ghost py0 = pen_y as int;
        let ghost regs: Seq<Option<Coords>> = if li < regions@.len() {
            regv[li as int]
        } else {
            Seq::empty()
        };
        let mut words: Vec<Vec<PlacedGlyph>> = Vec::new();
        let mut cur: Vec<PlacedGlyph> = Vec::new();
        proof {
            assert(word_view(cur) =~= Seq::<PGModel>::empty());
            assert(line_view(words) =~= Seq::<Seq<PGModel>>::empty());
        }
        let mut j: usize = 0;
        while j < gn
            invariant
                ln == lines@.len(),
                li < ln,
                line == &lines@[li as int],
                gn == line@.len(),
                0 <= j <= gn,
                regv == regions@.map_values(|l: Vec<Option<Coords>>| l@),
                regs == (if li < regions@.len() {
                    regv[li as int]
                } else {
                    Seq::empty()
                }),
                forall|q: int, j2: int|
                    0 <= q < regions@.len() && 0 <= j2 < regions@[q]@.len() ==> match #[trigger] regions@[q]@[j2] {
                        Some(c) => c.x + c.w <= u32::MAX && c.y + c.h <= u32::MAX,
                        None => true,
                    },
                build_words(
                    line@,
                    regs,
                    color,
                    j as int,
                    word_view(cur),
                    line_view(words),
                    pen_x as int,
                    pen_y as int,
                ) == build_words(line@, regs, color, 0, Seq::empty(), Seq::empty(), px0, py0),
            decreases gn - j,
        {
            let g = &line[j];
            let ro: Option<Coords> = if li < regions.len() {
                let rline = &regions[li];
                if j < rline.len() {
                    rline[j]
                } else {
                    None
                }
            } else {
                None
            };
            proof {
                if li < regions@.len() {
                    assert(regv[li as int] == regions@[li as int]@);
                }
                assert(ro == (if 0 <= j < regs.len() {
                    regs[j as int]
                } else {
                    None::<Coords>
                }));
            }
            let ghost curv = word_view(cur);
            let ghost wordsv = line_view(words);
            let ghost pen_a = pen_x as int;
            let ghost pen_b = pen_y as int;
            match ro {
                Some(c) => {
                    let verts = glyph_quad(pen_x, pen_y, g.shaped, g.metrics, c, color);
                    cur.push(PlacedGlyph { img_id: c.img_id, verts });
                    proof {
                        assert(word_view(cur) =~= curv.push(
                            PGModel {
                                img_id: c.img_id,
                                verts: glyph_quad_spec(
                                    pen_x as int,
                                    pen_y as int,
                                    line@[j as int].shaped,
                                    line@[j as int].metrics,
                                    c,
                                    color,
                                ),
                            },
                        ));
                    }
                },
                None => {
                    if cur.len() > 0 {
                        let done = cur;
                        cur = Vec::new();
                        words.push(done);
                        proof {
                            assert(line_view(words) =~= wordsv.push(curv));
                            assert(word_view(cur) =~= Seq::<PGModel>::empty());
                        }
                    } else {
                        proof {
                            assert(word_view(cur) =~= Seq::<PGModel>::empty());
                        }
                    }
                },
            }
            pen_x = sat_add(pen_x, g.shaped.x_advance);
            pen_y = sat_add(pen_y, g.shaped.y_advance);
            proof {
                assert(build_words(line@, regs, color, j as int, curv, wordsv, pen_a, pen_b)
                    == build_words(
                    line@,
                    regs,
                    color,
                    j as int + 1,
                    word_view(cur),
                    line_view(words),
                    pen_x as int,
                    pen_y as int,
                ));
            }
            j = j + 1;
        }
        if cur.len() > 0 {
            let done = cur;
            let ghost wordsv = line_view(words);
            words.push(done);
            proof {
                assert(line_view(words) =~= wordsv.push(word_view(words@.last())));
            }
        }
        let ghost outv = all_view(out@);
        out.push(words);
        proof {
            assert(all_view(out@) =~= outv.push(line_view(out@.last())));
        }
        li = li + 1;
    }
    proof {
        assert(build_all(lines@, regv, color, ln as int, pen_x as int, pen_y as int, all_view(out@))
            == all_view(out@));
    }
    out
}

/// The least vertex x of a glyph's quad, folded from `acc`.
pub open spec fn glyph_min_x(vs: Seq<ItfVertInfo>, k: int, acc: i64) -> i64
    decreases vs.len() - k,
{
    if k < 0 || k >= vs.len() {
        acc
    } else {
        glyph_min_x(
            vs,
            k + 1,
            if vs[k].position_x < acc {
                vs[k].position_x
            } else {
                acc
            },
        )
    }
}

/// The greatest vertex x of a glyph's quad, folded from `acc`.
pub open spec fn glyph_max_x(vs: Seq<ItfVertInfo>, k: int, acc: i64) -> i64
    decreases vs.len() - k,
{
    if k < 0 || k >= vs.len() {
        acc
    } else {
        glyph_max_x(
            vs,
            k + 1,
            if vs[k].position_x > acc {
                vs[k].position_x
            } else {
                acc
            },
        )
    }
}

/// The least vertex x over a word's glyphs, folded from `acc`.
pub open spec fn word_min_x(w: Seq<PGModel>, gi: int, acc: i64) -> i64
    decreases w.len() - gi,
{
    if gi < 0 || gi >= w.len() {
        acc
    } else {
        word_min_x(w, gi + 1, glyph_min_x(w[gi].verts, 0, acc))
    }
}

/// The greatest vertex x over a word's glyphs, folded from `acc`.
pub open spec fn word_max_x(w: Seq<PGModel>, gi: int, acc: i64) -> i64
    decreases w.len() - gi,
{
    if gi < 0 || gi >= w.len() {
        acc
    } else {
        word_max_x(w, gi + 1, glyph_max_x(w[gi].verts, 0, acc))
    }
}

/// Each word's horizontal extent: the least and greatest vertex x over
/// its glyph quads.
pub open spec fn extents_of(ws: Seq<Seq<PGModel>>) -> Seq<WordExtent> {
    ws.map_values(
        |w: Seq<PGModel>|
            WordExtent { min_x: word_min_x(w, 0, i64::MAX), max_x: word_max_x(w, 0, i64::MIN) },
    )
}

/// Computes each word's horizontal extent.
pub fn word_extents(words: &Vec<Vec<PlacedGlyph>>) -> (r: Vec<WordExtent>)
    ensures
        r@ == extents_of(line_view(*words)),
{
    let ghost wsv = line_view(*words);
    let mut out: Vec<WordExtent> = Vec::new();
    let wn = words.len();
    let mut wi: usize = 0;
    while wi < wn
        invariant
            wn == words@.len(),
            0 <= wi <= wn,
            wsv == line_view(*words),
            out@.len() == wi,
            forall|q: int| 0 <= q < wi ==> out@[q] == extents_of(wsv)[q],
        decreases wn - wi,
    {
        let w = &words[wi];
        proof {
            assert(wsv[wi as int] == word_view(*w));
        }
        let gn = w.len();
        let mut mn: i64 = i64::MAX;
        let mut mx: i64 = i64::MIN;
        let mut gi: usize = 0;
        while gi < gn
            invariant
                gn == w@.len(),
                0 <= gi <= gn,
                word_min_x(word_view(*w), gi as int, mn) == word_min_x(word_view(*w), 0, i64::MAX),
                word_max_x(word_view(*w), gi as int, mx) == word_max_x(word_view(*w), 0, i64::MIN),
            decreases gn - gi,
        {
            let ghost wv = word_view(*w);
            let vs = &w[gi].verts;
            proof {
                assert(wv[gi as int] == w@[gi as int]@);
                assert(wv[gi as int].verts == vs@);
            }
            let ghost mn0 = mn;
            let ghost mx0 = mx;
            let vn = vs.len();
            let mut k: usize = 0;
            while k < vn
                invariant
                    vn == vs@.len(),
                    0 <= k <= vn,
                    glyph_min_x(vs@, k as int, mn) == glyph_min_x(vs@, 0, mn0),
                    glyph_max_x(vs@, k as int, mx) == glyph_max_x(vs@, 0, mx0),
                decreases vn - k,
            {
                let px = vs[k].position_x;
                let ghost mn_pre = mn;
                let ghost mx_pre = mx;
                if px < mn {
                    mn = px;
                }
                if px > mx {
                    mx = px;
                }
                proof {
                    assert(glyph_min_x(vs@, k as int, mn_pre) == glyph_min_x(
                        vs@,
                        k as int + 1,
                        mn,
                    ));
                    assert(glyph_max_x(vs@, k as int, mx_pre) == glyph_max_x(
                        vs@,
                        k as int + 1,
                        mx,
                    ));
                }
                k = k + 1;
            }
            proof {
                assert(mn == glyph_min_x(vs@, 0, mn0));
                assert(mx == glyph_max_x(vs@, 0, mx0));
                assert(word_min_x(wv, gi as int, mn0) == word_min_x(wv, gi as int + 1, mn));
                assert(word_max_x(wv, gi as int, mx0) == word_max_x(wv, gi as int + 1, mx));
            }
            gi = gi + 1;
        }
        out.push(WordExtent { min_x: mn, max_x: mx });
        proof {
            assert(extents_of(wsv)[wi as int] == (WordExtent {
                min_x: word_min_x(wsv[wi as int], 0, i64::MAX),
                max_x: word_max_x(wsv[wi as int], 0, i64::MIN),
            }));
        }
        wi = wi + 1;
    }
    proof {
        assert(out@ =~= extents_of(wsv));
    }
    out
}

/// One vertex shifted by `(dx, dy)`, saturating.
pub open spec fn shift_vert_spec(v: ItfVertInfo, dx: int, dy: int) -> ItfVertInfo {
    ItfVertInfo {
        position_x: sat_add_spec(v.position_x as int, dx) as i64,
        position_y: sat_add_spec(v.position_y as int, dy) as i64,
        position_z: v.position_z,
        coord_u: v.coord_u,
        coord_v: v.coord_v,
        color: v.color,
        ty: v.ty,
    }
}

/// A vertex run shifted by `(dx, dy)`.
pub open spec fn shift_verts_spec(vs: Seq<ItfVertInfo>, dx: int, dy: int) -> Seq<ItfVertInfo> {
    vs.map_values(|v: ItfVertInfo| shift_vert_spec(v, dx, dy))
}

/// Builds the shifted copy of a vertex run.
pub fn shifted_verts(vs: &Vec<ItfVertInfo>, dx: i64, dy: i64) -> (r: Vec<ItfVertInfo>)
    ensures
        r@ == shift_verts_spec(vs@, dx as int, dy as int),
{
    let mut r: Vec<ItfVertInfo> = Vec::new();
    let n = vs.len();
    let mut k: usize = 0;
    while k < n
        invariant
            n == vs@.len(),
            0 <= k <= n,
            r@.len() == k,
            forall|q: int|
                0 <= q < k ==> r@[q] == shift_vert_spec(vs@[q], dx as int, dy as int),
        decreases n - k,
    {
        let v = vs[k];
        r.push(
            ItfVertInfo {
                position_x: sat_add(v.position_x, dx),
                position_y: sat_add(v.position_y, dy),
                position_z: v.position_z,
                coord_u: v.coord_u,
                coord_v: v.coord_v,
                color: v.color,
                ty: v.ty,
            },
        );
        k = k + 1;
    }
    proof {
        assert(r@ =~= shift_verts_spec(vs@, dx as int, dy as int));
    }
    r
}

/// Folds one word's glyphs into the batch list, shifted by `(dx, dy)`.
pub open spec fn collect_word(
    bs: Seq<BatchModel>,
    w: Seq<PGModel>,
    dx: int,
    dy: int,
    gi: int,
) -> Seq<BatchModel>
    decreases w.len() - gi,
{
    if gi < 0 || gi >= w.len() {
        bs
    } else {
        collect_word(
            add_to_batches(bs, w[gi].img_id, shift_verts_spec(w[gi].verts, dx, dy)),
            w,
            dx,
            dy,
            gi + 1,
        )
    }
}

/// Folds the words `[wi, b)` of a line into the batch list.
pub open spec fn collect_range(
    bs: Seq<BatchModel>,
    words: Seq<Seq<PGModel>>,
    wi: int,
    b: int,
    dx: int,
    dy: int,
) -> Seq<BatchModel>
    decreases b - wi,
{
    if wi < 0 || wi >= b || wi >= words.len() {
        bs
    } else {
        collect_range(collect_word(bs, words[wi], dx, dy, 0), words, wi + 1, b, dx, dy)
    }
}

/// The horizontal alignment offset for a line whose content spans
/// `[start, end]` inside the wrap width: left keeps the content at the
/// origin, center leaves half the slack on each side, right leaves all of
/// it on the left.
pub open spec fn x_offset_spec(align: TextAlign, width: int, start: i64, end: i64) -> int {
    let lw = sat_sub_spec(end as int, start as int);
    match align {
        TextAlign::Left => sat_sub_spec(0, start as int),
        TextAlign::Center => sat_sub_spec(
            trunc_div(sat_sub_spec(width, lw), 2),
            start as int,
        ),
        TextAlign::Right => sat_sub_spec(sat_sub_spec(width, lw), start as int),
    }
}

/// Computes the horizontal alignment offset.
pub fn x_offset(align: TextAlign, width: i64, start: i64, end: i64) -> (r: i64)
    ensures
        r == x_offset_spec(align, width as int, start, end),
{
    let lw = sat_sub(end, start);
    match align {
        TextAlign::Left => sat_sub(0, start),
        TextAlign::Center => sat_sub(div2(sat_sub(width, lw)), start),
        TextAlign::Right => sat_sub(sat_sub(width, lw), start),
    }
}

/// Folds the wrapped lines of one source line into the batch list: each
/// range is aligned within the wrap width and dropped `dy` below the text
/// origin; `dy` grows by one line height per wrapped line. Yields the
/// batches and the `dy` after this source line.
pub open spec fn collect_ranges(
    bs: Seq<BatchModel>,
    words: Seq<Seq<PGModel>>,
    ext: Seq<WordExtent>,
    ranges: Seq<(int, int)>,
    ri: int,
    width: int,
    align: TextAlign,
    line_height: int,
    dy: int,
) -> (Seq<BatchModel>, int)
    decreases ranges.len() - ri,
{
    if ri < 0 || ri >= ranges.len() {
        (bs, dy)
    } else {
        let r = ranges[ri];
        let start = if 0 <= r.0 < ext.len() {
            ext[r.0].min_x
        } else {
            0
        };
        let end = if 0 < r.1 <= ext.len() {
            ext[r.1 - 1].max_x
        } else {
            0
        };
        let dx = x_offset_spec(align, width, start, end);
        let bs2 = collect_range(bs, words, r.0, r.1, dx, dy);
        collect_ranges(
            bs2,
            words,
            ext,
            ranges,
            ri + 1,
            width,
            align,
            line_height,
            sat_add_spec(dy, line_height),
        )
    }
}

/// Folds every source line through wrap and alignment into the batch
/// list, threading the wrapped-line vertical offset across source lines.
pub open spec fn normal_collect(
    bs: Seq<BatchModel>,
    all: Seq<Seq<Seq<PGModel>>>,
    width: int,
    align: TextAlign,
    line_height: int,
    li: int,
    dy: int,
) -> (Seq<BatchModel>, int)
    decreases all.len() - li,
{
    if li < 0 || li >= all.len() {
        (bs, dy)
    } else {
        let words = all[li];
        let ext = extents_of(words);
        let ranges = wrap_ranges(ext, width, 0);
        let r = collect_ranges(bs, words, ext, ranges, 0, width, align, line_height, dy);
        normal_collect(r.0, all, width, align, line_height, li + 1, r.1)
    }
}

/// Folds every word of every source line into the batch list unshifted:
/// the unwrapped mode uses the shaped positions unmodified.
pub open spec fn plain_collect(
    bs: Seq<BatchModel>,
    all: Seq<Seq<Seq<PGModel>>>,
    li: int,
) -> Seq<BatchModel>
    decreases all.len() - li,
{
    if li < 0 || li >= all.len() {
        bs
    } else {
        plain_collect(collect_range(bs, all[li], 0, all[li].len() as int, 0, 0), all, li + 1)
    }
}

/// Appends one word's shifted glyph quads to the batch list.
fn collect_word_exec(out: &mut Vec<VertBatch>, w: &Vec<PlacedGlyph>, dx: i64, dy: i64)
    ensures
        batches_view(final(out)@) == collect_word(
            batches_view(old(out)@),
            word_view(*w),
            dx as int,
            dy as int,
            0,
        ),
{
    let ghost wv = word_view(*w);
    let gn = w.len();
    let mut gi: usize = 0;
    while gi < gn
        invariant
            gn == w@.len(),
            0 <= gi <= gn,
            wv == word_view(*w),
            collect_word(batches_view(out@), wv, dx as int, dy as int, gi as int) == collect_word(
                batches_view(old(out)@),
                wv,
                dx as int,
                dy as int,
                0,
            ),
        decreases gn - gi,
    {
        proof {
            assert(wv[gi as int] == w@[gi as int]@);
        }
        let vs = shifted_verts(&w[gi].verts, dx, dy);
        add_batch(out, w[gi].img_id, vs);
        gi = gi + 1;
    }
}

/// Appends the words `[a, b)` of a line to the batch list.
fn collect_range_exec(
    out: &mut Vec<VertBatch>,
    words: &Vec<Vec<PlacedGlyph>>,
    a: usize,
    b: usize,
    dx: i64,
    dy: i64,
)
    requires
        b <= words@.len(),
    ensures
        batches_view(final(out)@) == collect_range(
            batches_view(old(out)@),
            line_view(*words),
            a as int,
            b as int,
            dx as int,
            dy as int,
        ),
{
    let ghost wsv = line_view(*words);
    let mut wi: usize = a;
    if a >= b {
        return ;
    }
    while wi < b
        invariant
            b <= words@.len(),
            a <= wi <= b,
            wsv == line_view(*words),
            collect_range(batches_view(out@), wsv, wi as int, b as int, dx as int, dy as int)
                == collect_range(
                batches_view(old(out)@),
                wsv,
                a as int,
                b as int,
                dx as int,
                dy as int,
            ),
        decreases b - wi,
    {
        proof {
            assert(wsv[wi as int] == word_view(words@[wi as int]));
        }
        collect_word_exec(out, &words[wi], dx, dy);
        wi = wi + 1;
    }
}

/// Wraps, aligns, and collects every source line's words into batches.
fn collect_normal(
    all: &Vec<Vec<Vec<PlacedGlyph>>>,
    width: i64,
    align: TextAlign,
    line_height: i64,
) -> (out: Vec<VertBatch>)
    ensures
        batches_view(out@) == normal_collect(
            Seq::empty(),
            all_view(all@),
            width as int,
            align,
            line_height as int,
            0,
            0,
        ).0,
{
    let ghost allv = all_view(all@);
    let mut out: Vec<VertBatch> = Vec::new();
    let mut dy: i64 = 0;
    proof {
        assert(batches_view(out@) =~= Seq::<BatchModel>::empty());
    }
    let ln = all.len();
    let mut li: usize = 0;
    while li < ln
        invariant
            ln == all@.len(),
            0 <= li <= ln,
            allv == all_view(all@),
            normal_collect(
                batches_view(out@),
                allv,
                width as int,
                align,
                line_height as int,
                li as int,
                dy as int,
            ) == normal_collect(
                Seq::empty(),
                allv,
                width as int,
                align,
                line_height as int,
                0,
                0,
            ),
        decreases ln - li,
    {
        let words = &all[li];
        proof {
            assert(allv[li as int] == line_view(all@[li as int]));
        }
        let ext = word_extents(words);
        let ranges = wrap_words(&ext, width);
        let ghost extv = ext@;
        let ghost rangesv = ranges@.map_values(|p: (usize, usize)| (p.0 as int, p.1 as int));
        let ghost bs_li = batches_view(out@);
        let ghost dy_li = dy as int;
        let rn = ranges.len();
        let mut ri: usize = 0;
        while ri < rn
            invariant
                ln == all@.len(),
                li < ln,
                words == &all@[li as int],
                allv == all_view(all@),
                rn == ranges@.len(),
                0 <= ri <= rn,
                extv == ext@,
                extv == extents_of(line_view(*words)),
                rangesv == ranges@.map_values(|p: (usize, usize)| (p.0 as int, p.1 as int)),
                rangesv == wrap_ranges(extv, width as int, 0),
                forall|k: int| 0 <= k < ranges@.len() ==> (#[trigger] ranges@[k]).1 <= ext@.len(),
                forall|k: int| 0 <= k < ranges@.len() ==> (#[trigger] ranges@[k]).0 < ranges@[k].1,
                collect_ranges(
                    batches_view(out@),
                    line_view(*words),
                    extv,
                    rangesv,
                    ri as int,
                    width as int,
                    align,
                    line_height as int,
                    dy as int,
                ) == collect_ranges(
                    bs_li,
                    line_view(*words),
                    extv,
                    rangesv,
                    0,
                    width as int,
                    align,
                    line_height as int,
                    dy_li,
                ),
                normal_collect(
                    bs_li,
                    allv,
                    width as int,
                    align,
                    line_height as int,
                    li as int,
                    dy_li,
                ) == normal_collect(
                    Seq::empty(),
                    allv,
                    width as int,
                    align,
                    line_height as int,
                    0,
                    0,
                ),
            decreases rn - ri,
        {
            let (a, b) = ranges[ri];
            proof {
                assert(rangesv[ri as int] == (a as int, b as int));
                assert(extv.len() == line_view(*words).len());
            }
            let start = ext[a].min_x;
            let end = ext[b - 1].max_x;
            let dx = x_offset(align, width, start, end);
            collect_range_exec(&mut out, words, a, b, dx, dy);
            dy = sat_add(dy, line_height);
            ri = ri + 1;
        }
        li = li + 1;
    }
    out
}

/// Collects every word of every source line into batches unshifted.
fn collect_plain(all: &Vec<Vec<Vec<PlacedGlyph>>>) -> (out: Vec<VertBatch>)
    ensures
        batches_view(out@) == plain_collect(Seq::empty(), all_view(all@), 0),
{
    let ghost allv = all_view(all@);
    let mut out: Vec<VertBatch> = Vec::new();
    proof {
        assert(batches_view(out@) =~= Seq::<BatchModel>::empty());
    }
    let ln = all.len();
    let mut li: usize = 0;
    while li < ln
        invariant
            ln == all@.len(),
            0 <= li <= ln,
            allv == all_view(all@),
            plain_collect(batches_view(out@), allv, li as int) == plain_collect(
                Seq::empty(),
                allv,
                0,
            ),
        decreases ln - li,
    {
        let words = &all[li];
        proof {
            assert(allv[li as int] == line_view(all@[li as int]));
        }
        let wn = words.len();
        collect_range_exec(&mut out, words, 0, wn, 0, 0);
        li = li + 1;
    }
    out
}

/// The glyph batches a text render yields, given the per-glyph atlas
/// regions: the shaped glyphs are assembled into positioned quads and
/// words starting the pen at `(0, start_y)`; word-wrapped into aligned
/// lines dropped one line height apart for `Normal`; taken unmodified for
/// `NoWrap`; and dropped entirely for the single-axis shift modes, whose
/// layout upstream leaves unspecified.
pub open spec fn layout_batches(
    lines: Seq<Vec<GlyphInput>>,
    regions: Seq<Seq<Option<Coords>>>,
    color: crate::style::Color,
    wrap: WrapTy,
    align: TextAlign,
    start_y: int,
    line_height: int,
) -> Seq<BatchModel> {
    let all = build_all(lines, regions, color, 0, 0, start_y, Seq::empty());
    match wrap {
        WrapTy::NoWrap => plain_collect(Seq::empty(), all, 0),
        WrapTy::Normal(w, _h) => normal_collect(
            Seq::empty(),
            all,
            w as int,
            align,
            line_height,
            0,
            0,
        ).0,
        WrapTy::ShiftX(_) => Seq::empty(),
        WrapTy::ShiftY(_) => Seq::empty(),
    }
}

/// Renders shaped text: caches every glyph bitmap in the atlas (at most
/// one upload per (size, codepoint) key for the life of the atlas), lays
/// the glyph quads out with word-wrap and alignment, and returns them
/// grouped by backing image. Fails exactly when a glyph bitmap exceeds
/// the atlas capacity; the error aborts only this call and the atlas
/// keeps every region it already handed out. The vertical-shift wrap mode
/// is unspecified upstream and refused by contract.
pub fn render_text(
    atlas: &mut Atlas,
    lines: &Vec<Vec<GlyphInput>>,
    size: u32,
    color: crate::style::Color,
    wrap: WrapTy,
    align: TextAlign,
    start_y: i64,
    line_height: i64,
) -> (r: Result<Vec<VertBatch>, BstTextError>)
    requires
        atlas_wf(old(atlas)@),
        !(wrap is ShiftY),
    ensures
        atlas_wf(final(atlas)@),
        final(atlas)@ == regions_lines(old(atlas)@, size, lines@, 0).1,
        match r {
            Ok(b) => regions_lines(old(atlas)@, size, lines@, 0).0 is Ok && batches_view(b@)
                == layout_batches(
                lines@,
                regions_lines(old(atlas)@, size, lines@, 0).0.unwrap(),
                color,
                wrap,
                align,
                start_y as int,
                line_height as int,
            ),
            Err(e) => regions_lines(old(atlas)@, size, lines@, 0).0 == Err::<
                Seq<Seq<Option<Coords>>>,
                BstTextError,
            >(e),
        },
{
    let regions = match ensure_regions(atlas, size, lines) {
        Ok(v) => v,
        Err(e) => {
            return Err(e);
        },
    };
    let all = build_glyph_words(lines, &regions, color, start_y);
    let batches = match wrap {
        WrapTy::NoWrap => collect_plain(&all),
        WrapTy::Normal(w, _h) => collect_normal(&all, w, align, line_height),
        WrapTy::ShiftX(_) => Vec::new(),
        WrapTy::ShiftY(_) => Vec::new(),
    };
    proof {
        if wrap matches WrapTy::ShiftX(_) {
            assert(batches_view(batches@) =~= Seq::<BatchModel>::empty());
        }
    }
    Ok(batches)
}

/// The scan for the line break finds exactly the first exceeding word.
pub proof fn lemma_first_break_finds(ext: Seq<WordExtent>, width: int, i: int, j: int, k: int)
    requires
        0 <= j <= k < ext.len(),
        forall|l: int|
            j <= l < k ==> sat_sub_spec((#[trigger] ext[l]).max_x as int, ext[i].min_x as int)
                <= width,
        sat_sub_spec(ext[k].max_x as int, ext[i].min_x as int) > width,
    ensures
        first_break(ext, width, i, j) == k,
    decreases k - j,
{
    if j < k {
        lemma_first_break_finds(ext, width, i, j + 1, k);
    }
}

} // verus!
