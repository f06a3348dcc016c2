//! The double-buffered vertex handoff between the layout producer and the
//! render consumer. The producer walks every live, visible bin, builds the
//! complete vertex set for the scene, and publishes it wholesale as a new
//! buffer generation; the consumer snapshots the current front buffer. A
//! buffer, once published, is never mutated in place, so a snapshot always
//! observes one complete generation and never a mix of two — the ghost
//! generation history pins each generation to the full vertex set it was
//! published with.

use vstd::prelude::*;
use crate::atlas::{atlas_wf, Atlas, AtlasModel, Coords};
use crate::geom::{clamp_i64, sat_add, sat_add_spec, Rect};
use crate::interface::{resolve_idx_spec, Bin, Interface, ResolvedGeo};
use crate::style::{Color, Style, TextAlign, WrapTy};
use crate::text::{
    add_batch, add_to_batches, batches_view, layout_batches, regions_lines, render_text,
    BatchModel, BstTextError, GlyphInput, VertBatch,
};
use crate::text_render::{floor64, floor64_spec};
use crate::vertex::{ItfVertInfo, VERT_TY_BORDER, VERT_TY_IMAGE, VERT_TY_SOLID};

verus! {

/// The two-triangle quad covering the pixel rectangle `r` at stacking
/// depth `z`, drawn in mode `ty` with color `c`; texture corners are the
/// region's pixel corners (zero for untextured modes). Vertex order is
/// top-right, top-left, bottom-left, top-right, bottom-left,
/// bottom-right.
pub open spec fn rect_quad_spec(r: Rect, z: i64, c: Color, ty: i32, tex: Coords) -> Seq<ItfVertInfo> {
    let x1 = sat_add_spec(r.x as int, r.w as int);
    let y1 = sat_add_spec(r.y as int, r.h as int);
    let u1 = ((tex.x + tex.w) as u32);
    let v1 = ((tex.y + tex.h) as u32);
    seq![
        ItfVertInfo {
            position_x: x1 as i64,
            position_y: r.y,
            position_z: z,
            coord_u: u1,
            coord_v: tex.y,
            color: c,
            ty,
        },
        ItfVertInfo {
            position_x: r.x,
            position_y: r.y,
            position_z: z,
            coord_u: tex.x,
            coord_v: tex.y,
            color: c,
            ty,
        },
        ItfVertInfo {
            position_x: r.x,
            position_y: y1 as i64,
            position_z: z,
            coord_u: tex.x,
            coord_v: v1,
            color: c,
            ty,
        },
        ItfVertInfo {
            position_x: x1 as i64,
            position_y: r.y,
            position_z: z,
            coord_u: u1,
            coord_v: tex.y,
            color: c,
            ty,
        },
        ItfVertInfo {
            position_x: r.x,
            position_y: y1 as i64,
            position_z: z,
            coord_u: tex.x,
            coord_v: v1,
            color: c,
            ty,
        },
        ItfVertInfo {
            position_x: x1 as i64,
            position_y: y1 as i64,
            position_z: z,
            coord_u: u1,
            coord_v: v1,
            color: c,
            ty,
        },
    ]
}

/// Builds the quad covering `r`.
fn rect_quad(r: Rect, z: i64, c: Color, ty: i32, tex: Coords) -> (out: Vec<ItfVertInfo>)
    requires
        tex.x + tex.w <= u32::MAX,
        tex.y + tex.h <= u32::MAX,
    ensures
        out@ == rect_quad_spec(r, z, c, ty, tex),
{
    let x1 = sat_add(r.x, r.w);
    let y1 = sat_add(r.y, r.h);
    let u1 = tex.x + tex.w;
    let v1 = tex.y + tex.h;
    let mut out: Vec<ItfVertInfo> = Vec::new();
    out.push(
        ItfVertInfo {
            position_x: x1,
            position_y: r.y,
            position_z: z,
            coord_u: u1,
            coord_v: tex.y,
            color: c,
            ty,
        },
    );
    out.push(
        ItfVertInfo {
            position_x: r.x,
            position_y: r.y,
            position_z: z,
            coord_u: tex.x,
            coord_v: tex.y,
            color: c,
            ty,
        },
    );
    out.push(
        ItfVertInfo {
            position_x: r.x,
            position_y: y1,
            position_z: z,
            coord_u: tex.x,
            coord_v: v1,
            color: c,
            ty,
        },
    );
    out.push(
        ItfVertInfo {
            position_x: x1,
            position_y: r.y,
            position_z: z,
            coord_u: u1,
            coord_v: tex.y,
            color: c,
            ty,
        },
    );
    out.push(
        ItfVertInfo {
            position_x: r.x,
            position_y: y1,
            position_z: z,
            coord_u: tex.x,
            coord_v: v1,
            color: c,
            ty,
        },
    );
    out.push(
        ItfVertInfo {
            position_x: x1,
            position_y: y1,
            position_z: z,
            coord_u: u1,
            coord_v: v1,
            color: c,
            ty,
        },
    );
    proof {
        assert(out@ =~= rect_quad_spec(r, z, c, ty, tex));
    }
    out
}

/// The zero texture region used by untextured draw modes.
pub open spec fn no_tex() -> Coords {
    Coords { img_id: 0, sub_img_id: 0, x: 0, y: 0, w: 0, h: 0 }
}

/// The untextured quads of one bin: its solid background fill if a back
/// color is set, one border quad per side with both a size and a color,
/// and its caller-supplied custom vertices.
pub open spec fn bin_untex_spec(s: Style, geo: ResolvedGeo) -> Seq<ItfVertInfo> {
    let r = geo.rect;
    let solid: Seq<ItfVertInfo> = match s.back_color {
        Some(c) => rect_quad_spec(r, geo.z, c, VERT_TY_SOLID, no_tex()),
        None => Seq::empty(),
    };
    let bt: Seq<ItfVertInfo> = match (s.border_size_t, s.border_color_t) {
        (Some(sz), Some(c)) => rect_quad_spec(
            Rect { x: r.x, y: sat_sub_i64(r.y, sz), w: r.w, h: sz },
            geo.z,
            c,
            VERT_TY_BORDER,
            no_tex(),
        ),
        _ => Seq::empty(),
    };
    let bb: Seq<ItfVertInfo> = match (s.border_size_b, s.border_color_b) {
        (Some(sz), Some(c)) => rect_quad_spec(
            Rect { x: r.x, y: sat_add_spec(r.y as int, r.h as int) as i64, w: r.w, h: sz },
            geo.z,
            c,
            VERT_TY_BORDER,
            no_tex(),
        ),
        _ => Seq::empty(),
    };
    let bl: Seq<ItfVertInfo> = match (s.border_size_l, s.border_color_l) {
        (Some(sz), Some(c)) => rect_quad_spec(
            Rect { x: sat_sub_i64(r.x, sz), y: r.y, w: sz, h: r.h },
            geo.z,
            c,
            VERT_TY_BORDER,
            no_tex(),
        ),
        _ => Seq::empty(),
    };
    let br: Seq<ItfVertInfo> = match (s.border_size_r, s.border_color_r) {
        (Some(sz), Some(c)) => rect_quad_spec(
            Rect { x: sat_add_spec(r.x as int, r.w as int) as i64, y: r.y, w: sz, h: r.h },
            geo.z,
            c,
            VERT_TY_BORDER,
            no_tex(),
        ),
        _ => Seq::empty(),
    };
    let custom: Seq<ItfVertInfo> = s.custom_verts@.map_values(
        |v: crate::style::CustomVert|
            ItfVertInfo {
                position_x: v.x,
                position_y: v.y,
                position_z: v.z,
                coord_u: 0,
                coord_v: 0,
                color: v.color,
                ty: VERT_TY_SOLID,
            },
    );
    solid + bt + bb + bl + br + custom
}

/// The saturating difference of two pixel coordinates, as an `i64`.
pub open spec fn sat_sub_i64(a: i64, b: i64) -> i64 {
    crate::geom::sat_sub_spec(a as int, b as int) as i64
}

/// Whether a bin is drawn at all.
pub open spec fn bin_visible(s: Style) -> bool {
    match s.hidden {
        Some(h) => !h,
        None => true,
    }
}

/// Folds one bin into the batch list: nothing when hidden; else its
/// untextured quads under the reserved image id zero, then its background
/// image quad under that image's id.
pub open spec fn bin_collect(bs: Seq<BatchModel>, s: Style, geo: ResolvedGeo) -> Seq<BatchModel> {
    if !bin_visible(s) {
        bs
    } else {
        let untex = bin_untex_spec(s, geo);
        let bs1 = if untex.len() > 0 {
            add_to_batches(bs, 0, untex)
        } else {
            bs
        };
        match s.back_image_atlas {
            Some(c) => add_to_batches(
                bs1,
                c.img_id,
                rect_quad_spec(geo.rect, geo.z, Color { r: 0, g: 0, b: 0, a: 0 }, VERT_TY_IMAGE, c),
            ),
            None => bs1,
        }
    }
}

/// The shaped input for one text-styled bin, prepared by the embedding's
/// shaping engine: which bin it belongs to, the pixel size it was shaped
/// at, the line start height and line height from the reference glyphs,
/// and the shaped glyph records with their bitmaps, line by line.
pub struct TextRun {
    pub bin_id: u64,
    pub size: u32,
    pub start_y: i64,
    pub line_height: i64,
    pub lines: Vec<Vec<GlyphInput>>,
}

/// Index of the first run for bin `id`, from position `k`.
pub open spec fn find_run(runs: Seq<TextRun>, id: u64, k: int) -> Option<int>
    decreases runs.len() - k,
{
    if k < 0 || k >= runs.len() {
        None
    } else if runs[k].bin_id == id {
        Some(k)
    } else {
        find_run(runs, id, k + 1)
    }
}

/// A 26.6 conversion of a whole-pixel length, saturating.
pub open spec fn sat_mul64_spec(v: i64) -> i64 {
    clamp_i64((v as int) * 64) as i64
}

/// Converts a whole-pixel length to 26.6 fixed point, saturating.
fn sat_mul64(v: i64) -> (r: i64)
    ensures
        r == sat_mul64_spec(v),
{
    let p: i128 = (v as i128) * 64;
    if p > (i64::MAX as i128) {
        i64::MAX
    } else if p < (i64::MIN as i128) {
        i64::MIN
    } else {
        p as i64
    }
}

/// How a bin's declared wrap mode lands for its text layout: word wrap
/// wraps within the bin's resolved width and height (in 26.6 units, as
/// the text pipeline measures); the single-axis shift modes pass through
/// (the vertical one draws nothing, its layout being unspecified
/// upstream); unset means unwrapped.
pub open spec fn bin_wrap_spec(s: Style, r: Rect) -> WrapTy {
    match s.text_wrap {
        Some(WrapTy::Normal(_, _)) => WrapTy::Normal(sat_mul64_spec(r.w), sat_mul64_spec(r.h)),
        Some(w) => w,
        None => WrapTy::NoWrap,
    }
}

/// A bin's effective text color: the declared one, else opaque black.
pub open spec fn text_color_of(s: Style) -> Color {
    match s.text_color {
        Some(c) => c,
        None => Color { r: 0, g: 0, b: 0, a: 255 },
    }
}

/// A bin's effective text alignment: the declared one, else left.
pub open spec fn text_align_of(s: Style) -> TextAlign {
    match s.text_hori_align {
        Some(a) => a,
        None => TextAlign::Left,
    }
}

/// One glyph vertex placed into the scene: its 26.6 text-local position
/// floored to whole pixels and moved to the bin's resolved corner, at the
/// bin's stacking depth.
pub open spec fn place_vert_spec(v: ItfVertInfo, geo: ResolvedGeo) -> ItfVertInfo {
    ItfVertInfo {
        position_x: sat_add_spec(geo.rect.x as int, floor64_spec(v.position_x)) as i64,
        position_y: sat_add_spec(geo.rect.y as int, floor64_spec(v.position_y)) as i64,
        position_z: geo.z,
        coord_u: v.coord_u,
        coord_v: v.coord_v,
        color: v.color,
        ty: v.ty,
    }
}

/// Folds a text layout's batches into the scene's, each vertex placed
/// into the bin's rectangle.
pub open spec fn merge_text_batches(
    bs: Seq<BatchModel>,
    tb: Seq<BatchModel>,
    geo: ResolvedGeo,
    k: int,
) -> Seq<BatchModel>
    decreases tb.len() - k,
{
    if k < 0 || k >= tb.len() {
        bs
    } else {
        merge_text_batches(
            add_to_batches(
                bs,
                tb[k].img_id,
                tb[k].verts.map_values(|v: ItfVertInfo| place_vert_spec(v, geo)),
            ),
            tb,
            geo,
            k + 1,
        )
    }
}

/// What one text-styled bin's run adds to the scene: its glyph bitmaps
/// cached through the atlas, laid out with the bin's wrap, alignment and
/// color, and placed into the bin's resolved rectangle. A capacity
/// failure aborts with the atlas as the region fold left it. The
/// vertical-shift wrap mode draws nothing.
#[verifier::opaque]
pub open spec fn bin_text_spec(
    bs: Seq<BatchModel>,
    a: AtlasModel,
    s: Style,
    geo: ResolvedGeo,
    run: TextRun,
) -> (Result<Seq<BatchModel>, BstTextError>, AtlasModel) {
    match s.text_wrap {
        Some(WrapTy::ShiftY(_)) => (Ok(bs), a),
        _ => {
            let rl = regions_lines(a, run.size, run.lines@, 0);
            match rl.0 {
                Err(e) => (Err(e), rl.1),
                Ok(regs) => {
                    let tb = layout_batches(
                        run.lines@,
                        regs,
                        text_color_of(s),
                        bin_wrap_spec(s, geo.rect),
                        text_align_of(s),
                        run.start_y as int,
                        run.line_height as int,
                    );
                    (Ok(merge_text_batches(bs, tb, geo, 0)), rl.1)
                },
            }
        },
    }
}

/// One bin's step of the scene walk: its own quads, then — when it is
/// visible, carries text, and the embedding delivered a shaped run for it
/// — its placed glyph quads.
pub open spec fn scene_step(
    bs: Seq<BatchModel>,
    a: AtlasModel,
    b: Bin,
    geo: ResolvedGeo,
    runs: Seq<TextRun>,
) -> (Result<Seq<BatchModel>, BstTextError>, AtlasModel) {
    let bs1 = bin_collect(bs, b.style, geo);
    if bin_visible(b.style) && b.style.text is Some {
        match find_run(runs, b.id, 0) {
            Some(ri) => bin_text_spec(bs1, a, b.style, geo, runs[ri]),
            None => (Ok(bs1), a),
        }
    } else {
        (Ok(bs1), a)
    }
}

/// The whole scene walk from bin `i` on, in id order, threading the
/// atlas: the complete batch set, or the first text failure with the
/// atlas as it then stood.
pub open spec fn scene_fold(
    bs: Seq<BatchModel>,
    a: AtlasModel,
    bins: Seq<Bin>,
    ww: int,
    wh: int,
    runs: Seq<TextRun>,
    i: int,
) -> (Result<Seq<BatchModel>, BstTextError>, AtlasModel)
    decreases bins.len() - i,
{
    if i < 0 || i >= bins.len() {
        (Ok(bs), a)
    } else {
        let st = scene_step(bs, a, bins[i], resolve_idx_spec(bins, i, ww, wh), runs);
        match st.0 {
            Err(e) => (Err(e), st.1),
            Ok(bs2) => scene_fold(bs2, st.1, bins, ww, wh, runs, i + 1),
        }
    }
}

/// Scans the runs for the first belonging to bin `id`.
fn find_run_exec(runs: &Vec<TextRun>, id: u64) -> (r: Option<usize>)
    ensures
        match r {
            Some(i) => i < runs@.len() && find_run(runs@, id, 0) == Some(i as int),
            None => find_run(runs@, id, 0) is None,
        },
{
    let n = runs.len();
    let mut i: usize = 0;
    while i < n
        invariant
            n == runs@.len(),
            0 <= i <= n,
            find_run(runs@, id, 0) == find_run(runs@, id, i as int),
        decreases n - i,
    {
        if runs[i].bin_id == id {
            return Some(i);
        }
        i = i + 1;
    }
    None
}

/// Builds the placed copy of a text vertex run.
fn place_verts(vs: &Vec<ItfVertInfo>, geo: ResolvedGeo) -> (r: Vec<ItfVertInfo>)
    ensures
        r@ == vs@.map_values(|v: ItfVertInfo| place_vert_spec(v, geo)),
{
    let mut r: Vec<ItfVertInfo> = Vec::new();
    let n = vs.len();
    let mut k: usize = 0;
    while k < n
        invariant
            n == vs@.len(),
            0 <= k <= n,
            r@.len() == k,
            forall|q: int| 0 <= q < k ==> r@[q] == place_vert_spec(vs@[q], geo),
        decreases n - k,
    {
        let v = vs[k];
        r.push(
            ItfVertInfo {
                position_x: sat_add(geo.rect.x, floor64(v.position_x)),
                position_y: sat_add(geo.rect.y, floor64(v.position_y)),
                position_z: geo.z,
                coord_u: v.coord_u,
                coord_v: v.coord_v,
                color: v.color,
                ty: v.ty,
            },
        );
        k = k + 1;
    }
    proof {
        assert(r@ =~= vs@.map_values(|v: ItfVertInfo| place_vert_spec(v, geo)));
    }
    r
}

/// The double buffer: the consumer-visible front buffer, its generation
/// number, a dirty flag, and the ghost history pinning every generation to
/// the complete vertex set it was published with.
pub struct ItfDualBuffer {
    pub front: Vec<VertBatch>,
    pub generation: u64,
    pub changed: bool,
    pub history: Ghost<Map<int, Seq<BatchModel>>>,
}

impl ItfDualBuffer {
    /// The buffer invariant: the current generation is on record, and the
    /// front buffer holds exactly that generation's complete vertex set.
    pub open spec fn wf(self) -> bool {
        &&& self.history@.dom().contains(self.generation as int)
        &&& self.history@[self.generation as int] == batches_view(self.front@)
    }

    /// An empty buffer at generation zero.
    pub fn new() -> (b: ItfDualBuffer)
        ensures
            b.wf(),
            b.generation == 0,
            b.front@.len() == 0,
            !b.changed,
    {
        let b = ItfDualBuffer {
            front: Vec::new(),
            generation: 0,
            changed: false,
            history: Ghost(Map::empty().insert(0, Seq::empty())),
        };
        proof {
            assert(batches_view(b.front@) =~= Seq::<BatchModel>::empty());
        }
        b
    }

    /// Publishes a complete replacement vertex set as the next generation.
    /// The front buffer is swapped wholesale — the buffer a consumer may
    /// be reading is never written in place — and the new generation is
    /// recorded with exactly the published set.
    pub fn publish(&mut self, batches: Vec<VertBatch>)
        requires
            old(self).wf(),
            old(self).generation < u64::MAX,
        ensures
            final(self).wf(),
            final(self).generation == old(self).generation + 1,
            batches_view(final(self).front@) == batches_view(batches@),
            final(self).changed,
            final(self).history@ == old(self).history@.insert(
                old(self).generation + 1,
                batches_view(batches@),
            ),
            forall|g: int|
                old(self).history@.dom().contains(g) && g != old(self).generation + 1
                    ==> final(self).history@.dom().contains(g) && final(self).history@[g] == old(
                    self,
                ).history@[g],
    {
        let gen2 = self.generation + 1;
        self.history = Ghost(self.history@.insert(gen2 as int, batches_view(batches@)));
        self.front = batches;
        self.generation = gen2;
        self.changed = true;
    }

    /// Snapshots the front buffer for the consumer: the batches, their
    /// generation, and whether a redraw is needed (something was published
    /// since the last snapshot, or the window was resized). The returned
    /// batches are exactly the complete vertex set recorded for the
    /// returned generation — never a partial write, never a mix of two
    /// generations. Taking a snapshot marks the buffer consumed.
    pub fn snapshot(&mut self, resized: bool) -> (r: (&Vec<VertBatch>, u64, bool))
        requires
            old(self).wf(),
        ensures
            final(self).wf(),
            final(self).front == old(self).front,
            final(self).generation == old(self).generation,
            final(self).history == old(self).history,
            !final(self).changed,
            r.1 == old(self).generation,
            r.2 == (old(self).changed || resized),
            batches_view(r.0@) == old(self).history@[old(self).generation as int],
    {
        let redraw = self.changed || resized;
        self.changed = false;
        let gen = self.generation;
        (&self.front, gen, redraw)
    }

    /// Rebuilds the complete vertex set for the scene — every live,
    /// visible bin, in id order, resolved against the window size, with
    /// the glyph quads of every text-styled bin whose shaped run the
    /// embedding delivered — and publishes it as the next generation. A
    /// text failure aborts with a typed error and leaves the published
    /// buffer untouched; the atlas keeps every region made before the
    /// failure.
    pub fn update(
        &mut self,
        itf: &Interface,
        atlas: &mut Atlas,
        runs: &Vec<TextRun>,
        win_w: i64,
        win_h: i64,
    ) -> (r: Result<(), BstTextError>)
        requires
            old(self).wf(),
            old(self).generation < u64::MAX,
            itf.wf(),
            atlas_wf(old(atlas)@),
            forall|i: int|
                0 <= i < itf.bins@.len() ==> match (#[trigger] itf.bins@[i]).style.back_image_atlas {
                    Some(c) => c.x + c.w <= u32::MAX && c.y + c.h <= u32::MAX,
                    None => true,
                },
        ensures
            final(self).wf(),
            atlas_wf(final(atlas)@),
            final(atlas)@ == scene_fold(
                Seq::empty(),
                old(atlas)@,
                itf.bins@,
                win_w as int,
                win_h as int,
                runs@,
                0,
            ).1,
            match r {
                Ok(_) => {
                    &&& final(self).generation == old(self).generation + 1
                    &&& final(self).changed
                    &&& scene_fold(
                        Seq::empty(),
                        old(atlas)@,
                        itf.bins@,
                        win_w as int,
                        win_h as int,
                        runs@,
                        0,
                    ).0 == Ok::<Seq<BatchModel>, BstTextError>(
                        batches_view(final(self).front@),
                    )
                },
                Err(e) => *final(self) == *old(self) && scene_fold(
                    Seq::empty(),
                    old(atlas)@,
                    itf.bins@,
                    win_w as int,
                    win_h as int,
                    runs@,
                    0,
                ).0 == Err::<Seq<BatchModel>, BstTextError>(e),
            },
    {
        match build_scene(itf, atlas, runs, win_w, win_h) {
            Ok(batches) => {
                self.publish(batches);
                Ok(())
            },
            Err(e) => Err(e),
        }
    }
}

/// The buffer atomicity law: under the buffer invariant, whatever a
/// consumer snapshots is exactly the complete vertex set recorded for the
/// front buffer's generation — a reader racing a publisher observes one
/// whole generation, never a mix of two, because publication swaps a
/// fully built replacement and never writes a visible buffer in place.
pub proof fn lemma_snapshot_atomic(b: ItfDualBuffer)
    requires
        b.wf(),
    ensures
        b.history@.dom().contains(b.generation as int),
        batches_view(b.front@) == b.history@[b.generation as int],
{
}

/// Builds the complete vertex set for the scene, caching and placing the
/// glyph quads of every visible text-styled bin the embedding delivered a
/// shaped run for. Fails exactly when a glyph bitmap exceeds the atlas
/// capacity; the atlas then keeps every region made before the failure.
pub fn build_scene(
    itf: &Interface,
    atlas: &mut Atlas,
    runs: &Vec<TextRun>,
    win_w: i64,
    win_h: i64,
) -> (r: Result<Vec<VertBatch>, BstTextError>)
    requires
        itf.wf(),
        atlas_wf(old(atlas)@),
        forall|i: int|
            0 <= i < itf.bins@.len() ==> match (#[trigger] itf.bins@[i]).style.back_image_atlas {
                Some(c) => c.x + c.w <= u32::MAX && c.y + c.h <= u32::MAX,
                None => true,
            },
    ensures
        atlas_wf(final(atlas)@),
        ({
            let f = scene_fold(
                Seq::empty(),
                old(atlas)@,
                itf.bins@,
                win_w as int,
                win_h as int,
                runs@,
                0,
            );
            &&& final(atlas)@ == f.1
            &&& match r {
                Ok(out) => f.0 == Ok::<Seq<BatchModel>, BstTextError>(batches_view(out@)),
                Err(e) => f.0 == Err::<Seq<BatchModel>, BstTextError>(e),
            }
        }),
{
    let ghost a0 = atlas@;
    let ghost runsv = runs@;
    let mut out: Vec<VertBatch> = Vec::new();
    proof {
        assert(batches_view(out@) =~= Seq::<BatchModel>::empty());
    }
    let mut failed: Option<BstTextError> = None;
    let n = itf.bins.len();
    let mut i: usize = 0;
    while i < n && failed.is_none()
        invariant
            itf.wf(),
            atlas_wf(atlas@),
            a0 == old(atlas)@,
            runsv == runs@,
            n == itf.bins@.len(),
            0 <= i <= n,
            forall|q: int|
                0 <= q < itf.bins@.len() ==> match (
                #[trigger] itf.bins@[q]).style.back_image_atlas {
                    Some(c) => c.x + c.w <= u32::MAX && c.y + c.h <= u32::MAX,
                    None => true,
                },
            match failed {
                None => scene_fold(
                    Seq::empty(),
                    a0,
                    itf.bins@,
                    win_w as int,
                    win_h as int,
                    runsv,
                    0,
                ) == scene_fold(
                    batches_view(out@),
                    atlas@,
                    itf.bins@,
                    win_w as int,
                    win_h as int,
                    runsv,
                    i as int,
                ),
                Some(e) => scene_fold(
                    Seq::empty(),
                    a0,
                    itf.bins@,
                    win_w as int,
                    win_h as int,
                    runsv,
                    0,
                ) == (Err::<Seq<BatchModel>, BstTextError>(e), atlas@),
            },
        decreases n - i, (if failed is Some {
            0int
        } else {
            1int
        }),
    {
        let ghost bs_iter = batches_view(out@);
        let ghost a_iter = atlas@;
        let geo = itf.resolve_at(i, win_w, win_h);
        let b = &itf.bins[i];
        let visible = match b.style.hidden {
            Some(h) => !h,
            None => true,
        };
        if visible {
            // Untextured quads: solid background, borders, custom verts.
            let mut untex: Vec<ItfVertInfo> = Vec::new();
            match b.style.back_color {
                Some(c) => {
                    let mut q = rect_quad(
                        geo.rect,
                        geo.z,
                        c,
                        VERT_TY_SOLID,
                        Coords { img_id: 0, sub_img_id: 0, x: 0, y: 0, w: 0, h: 0 },
                    );
                    untex.append(&mut q);
                },
                None => {},
            }
            match (b.style.border_size_t, b.style.border_color_t) {
                (Some(sz), Some(c)) => {
                    let mut q = rect_quad(
                        Rect {
                            x: geo.rect.x,
                            y: crate::geom::sat_sub(geo.rect.y, sz),
                            w: geo.rect.w,
                            h: sz,
                        },
                        geo.z,
                        c,
                        VERT_TY_BORDER,
                        Coords { img_id: 0, sub_img_id: 0, x: 0, y: 0, w: 0, h: 0 },
                    );
                    untex.append(&mut q);
                },
                _ => {},
            }
            match (b.style.border_size_b, b.style.border_color_b) {
                (Some(sz), Some(c)) => {
                    let mut q = rect_quad(
                        Rect {
                            x: geo.rect.x,
                            y: sat_add(geo.rect.y, geo.rect.h),
                            w: geo.rect.w,
                            h: sz,
                        },
                        geo.z,
                        c,
                        VERT_TY_BORDER,
                        Coords { img_id: 0, sub_img_id: 0, x: 0, y: 0, w: 0, h: 0 },
                    );
                    untex.append(&mut q);
                },
                _ => {},
            }
            match (b.style.border_size_l, b.style.border_color_l) {
                (Some(sz), Some(c)) => {
                    let mut q = rect_quad(
                        Rect {
                            x: crate::geom::sat_sub(geo.rect.x, sz),
                            y: geo.rect.y,
                            w: sz,
                            h: geo.rect.h,
                        },
                        geo.z,
                        c,
                        VERT_TY_BORDER,
                        Coords { img_id: 0, sub_img_id: 0, x: 0, y: 0, w: 0, h: 0 },
                    );
                    untex.append(&mut q);
                },
                _ => {},
            }
            match (b.style.border_size_r, b.style.border_color_r) {
                (Some(sz), Some(c)) => {
                    let mut q = rect_quad(
                        Rect {
                            x: sat_add(geo.rect.x, geo.rect.w),
                            y: geo.rect.y,
                            w: sz,
                            h: geo.rect.h,
                        },
                        geo.z,
                        c,
                        VERT_TY_BORDER,
                        Coords { img_id: 0, sub_img_id: 0, x: 0, y: 0, w: 0, h: 0 },
                    );
                    untex.append(&mut q);
                },
                _ => {},
            }
            let cn = b.style.custom_verts.len();
            let mut ci: usize = 0;
            let ghost untex_pre = untex@;
            while ci < cn
                invariant
                    cn == b.style.custom_verts@.len(),
                    0 <= ci <= cn,
                    untex@.len() == untex_pre.len() + ci,
                    forall|q2: int| 0 <= q2 < untex_pre.len() ==> untex@[q2] == untex_pre[q2],
                    forall|q2: int|
                        0 <= q2 < ci ==> #[trigger] untex@[untex_pre.len() + q2] == ({
                            let v = b.style.custom_verts@[q2];
                            ItfVertInfo {
                                position_x: v.x,
                                position_y: v.y,
                                position_z: v.z,
                                coord_u: 0,
                                coord_v: 0,
                                color: v.color,
                                ty: VERT_TY_SOLID,
                            }
                        }),
                decreases cn - ci,
            {
                let v = b.style.custom_verts[ci];
                untex.push(
                    ItfVertInfo {
                        position_x: v.x,
                        position_y: v.y,
                        position_z: v.z,
                        coord_u: 0,
                        coord_v: 0,
                        color: v.color,
                        ty: VERT_TY_SOLID,
                    },
                );
                ci = ci + 1;
            }
            proof {
                let s = b.style;
                let solid: Seq<ItfVertInfo> = match s.back_color {
                    Some(c) => rect_quad_spec(geo.rect, geo.z, c, VERT_TY_SOLID, no_tex()),
                    None => Seq::empty(),
                };
                let bt: Seq<ItfVertInfo> = match (s.border_size_t, s.border_color_t) {
                    (Some(sz), Some(c)) => rect_quad_spec(
                        Rect {
                            x: geo.rect.x,
                            y: sat_sub_i64(geo.rect.y, sz),
                            w: geo.rect.w,
                            h: sz,
                        },
                        geo.z,
                        c,
                        VERT_TY_BORDER,
                        no_tex(),
                    ),
                    _ => Seq::empty(),
                };
                let bb: Seq<ItfVertInfo> = match (s.border_size_b, s.border_color_b) {
                    (Some(sz), Some(c)) => rect_quad_spec(
                        Rect {
                            x: geo.rect.x,
                            y: sat_add_spec(geo.rect.y as int, geo.rect.h as int) as i64,
                            w: geo.rect.w,
                            h: sz,
                        },
                        geo.z,
                        c,
                        VERT_TY_BORDER,
                        no_tex(),
                    ),
                    _ => Seq::empty(),
                };
                let bl: Seq<ItfVertInfo> = match (s.border_size_l, s.border_color_l) {
                    (Some(sz), Some(c)) => rect_quad_spec(
                        Rect {
                            x: sat_sub_i64(geo.rect.x, sz),
                            y: geo.rect.y,
                            w: sz,
                            h: geo.rect.h,
                        },
                        geo.z,
                        c,
                        VERT_TY_BORDER,
                        no_tex(),
                    ),
                    _ => Seq::empty(),
                };
                let br: Seq<ItfVertInfo> = match (s.border_size_r, s.border_color_r) {
                    (Some(sz), Some(c)) => rect_quad_spec(
                        Rect {
                            x: sat_add_spec(geo.rect.x as int, geo.rect.w as int) as i64,
                            y: geo.rect.y,
                            w: sz,
                            h: geo.rect.h,
                        },
                        geo.z,
                        c,
                        VERT_TY_BORDER,
                        no_tex(),
                    ),
                    _ => Seq::empty(),
                };
                let customv: Seq<ItfVertInfo> = s.custom_verts@.map_values(
                    |v: crate::style::CustomVert|
                        ItfVertInfo {
                            position_x: v.x,
                            position_y: v.y,
                            position_z: v.z,
                            coord_u: 0,
                            coord_v: 0,
                            color: v.color,
                            ty: VERT_TY_SOLID,
                        },
                );
                assert(untex_pre =~= solid + bt + bb + bl + br);
                assert forall|t: int| 0 <= t < untex@.len() implies untex@[t] == (untex_pre
                    + customv)[t] by {
                    if t >= untex_pre.len() {
                        let q2 = t - untex_pre.len();
                        assert(untex@[untex_pre.len() + q2] == customv[q2]);
                    }
                }
                assert(untex@ =~= untex_pre + customv);
                assert(untex@ =~= bin_untex_spec(b.style, geo));
            }
            let ghost bs_pre = batches_view(out@);
            if untex.len() > 0 {
                add_batch(&mut out, 0, untex);
            }
            match b.style.back_image_atlas {
                Some(c) => {
                    let q = rect_quad(geo.rect, geo.z, Color { r: 0, g: 0, b: 0, a: 0 }, VERT_TY_IMAGE, c);
                    add_batch(&mut out, c.img_id, q);
                },
                None => {},
            }
            proof {
                assert(batches_view(out@) == bin_collect(
                    bs_pre,
                    itf.bins@[i as int].style,
                    resolve_idx_spec(itf.bins@, i as int, win_w as int, win_h as int),
                ));
            }
        }
        let ghost bs1 = bin_collect(
            bs_iter,
            itf.bins@[i as int].style,
            resolve_idx_spec(itf.bins@, i as int, win_w as int, win_h as int),
        );
        proof {
            assert(batches_view(out@) == bs1);
        }
        // The bin's text, when it carries any and a shaped run arrived.
        let has_text = b.style.text.is_some();
        if visible && has_text {
            match find_run_exec(runs, b.id) {
                Some(ri) => {
                    let run = &runs[ri];
                    let mut shift_y = false;
                    let wrap = match b.style.text_wrap {
                        Some(WrapTy::Normal(_, _)) => WrapTy::Normal(
                            sat_mul64(geo.rect.w),
                            sat_mul64(geo.rect.h),
                        ),
                        Some(WrapTy::ShiftY(v)) => {
                            shift_y = true;
                            WrapTy::ShiftY(v)
                        },
                        Some(w) => w,
                        None => WrapTy::NoWrap,
                    };
                    if !shift_y {
                        let color = match b.style.text_color {
                            Some(c) => c,
                            None => Color { r: 0, g: 0, b: 0, a: 255 },
                        };
                        let align = match b.style.text_hori_align {
                            Some(al) => al,
                            None => TextAlign::Left,
                        };
                        match render_text(
                            atlas,
                            &run.lines,
                            run.size,
                            color,
                            wrap,
                            align,
                            run.start_y,
                            run.line_height,
                        ) {
                            Ok(tb) => {
                                let ghost tbv = batches_view(tb@);
                                let tn = tb.len();
                                let mut t: usize = 0;
                                while t < tn
                                    invariant
                                        tn == tb@.len(),
                                        0 <= t <= tn,
                                        tbv == batches_view(tb@),
                                        merge_text_batches(
                                            batches_view(out@),
                                            tbv,
                                            geo,
                                            t as int,
                                        ) == merge_text_batches(bs1, tbv, geo, 0),
                                    decreases tn - t,
                                {
                                    proof {
                                        assert(tbv[t as int] == tb@[t as int]@);
                                    }
                                    let placed = place_verts(&tb[t].verts, geo);
                                    add_batch(&mut out, tb[t].img_id, placed);
                                    t = t + 1;
                                }
                                proof {
                                    reveal(bin_text_spec);
                                    assert(bin_text_spec(
                                        bs1,
                                        a_iter,
                                        itf.bins@[i as int].style,
                                        geo,
                                        runs@[ri as int],
                                    ) == (
                                        Ok::<Seq<BatchModel>, BstTextError>(batches_view(out@)),
                                        atlas@,
                                    ));
                                }
                            },
                            Err(e) => {
                                proof {
                                    reveal(bin_text_spec);
                                    assert(bin_text_spec(
                                        bs1,
                                        a_iter,
                                        itf.bins@[i as int].style,
                                        geo,
                                        runs@[ri as int],
                                    ) == (Err::<Seq<BatchModel>, BstTextError>(e), atlas@));
                                    assert(scene_step(
                                        bs_iter,
                                        a_iter,
                                        itf.bins@[i as int],
                                        resolve_idx_spec(
                                            itf.bins@,
                                            i as int,
                                            win_w as int,
                                            win_h as int,
                                        ),
                                        runsv,
                                    ) == (Err::<Seq<BatchModel>, BstTextError>(e), atlas@));
                                }
                                failed = Some(e);
                                continue ;
                            },
                        }
                    } else {
                        proof {
                            reveal(bin_text_spec);
                            assert(bin_text_spec(
                                bs1,
                                a_iter,
                                itf.bins@[i as int].style,
                                geo,
                                runs@[ri as int],
                            ) == (Ok::<Seq<BatchModel>, BstTextError>(bs1), a_iter));
                        }
                    }
                },
                None => {},
            }
        }
        proof {
            assert(scene_step(
                bs_iter,
                a_iter,
                itf.bins@[i as int],
                resolve_idx_spec(itf.bins@, i as int, win_w as int, win_h as int),
                runsv,
            ) == (Ok::<Seq<BatchModel>, BstTextError>(batches_view(out@)), atlas@));
        }
        i = i + 1;
    }
    match failed {
        Some(e) => Err(e),
        None => Ok(out),
    }
}

} // verus!
