//! The scene graph: a registry of styled rectangular nodes ("bins"), each
//! with a unique, monotonically assigned id and an optional parent link.
//!
//! The registry is an arena ordered by id. A parent always has a smaller id
//! than its children, which both rules out cycles and makes top-down
//! resolution terminate structurally. Geometry is resolved on demand as a
//! pure function of a node's style and its ancestor chain, so repeated
//! resolution with unchanged styles yields identical rectangles.

use vstd::prelude::*;
use crate::events::{EventsData, Hook};
use crate::geom::{sat_add, sat_add_spec, sat_sub, sat_sub_spec, Rect};
use crate::style::{Position, PxOrPct, Style};

verus! {

/// One node of the scene graph.
pub struct Bin {
    pub id: u64,
    pub parent: Option<u64>,
    pub style: Style,
    pub hooks: Vec<Hook>,
    pub next_hook_id: u64,
}

/// The scene graph registry together with the dispatcher state.
pub struct Interface {
    pub bins: Vec<Bin>,
    pub next_id: u64,
    pub events: EventsData,
}

/// Index of the first bin in `bins[..hi]` carrying `id`.
pub open spec fn index_of_below(bins: Seq<Bin>, id: u64, hi: int) -> Option<int>
    decreases hi,
{
    if hi <= 0 || hi > bins.len() {
        None
    } else if bins[hi - 1].id == id {
        Some(hi - 1)
    } else {
        index_of_below(bins, id, hi - 1)
    }
}

/// Index of the bin carrying `id`, if it is registered.
pub open spec fn index_of_id(bins: Seq<Bin>, id: u64) -> Option<int> {
    index_of_below(bins, id, bins.len() as int)
}

/// Whether a bin carrying `id` is registered.
pub open spec fn id_exists(bins: Seq<Bin>, id: u64) -> bool {
    index_of_id(bins, id) is Some
}

/// A found index carries the id and lies below the bound.
pub proof fn lemma_index_of_below_some(bins: Seq<Bin>, id: u64, hi: int, i: int)
    requires
        index_of_below(bins, id, hi) == Some(i),
    ensures
        0 <= i < hi <= bins.len(),
        bins[i].id == id,
    decreases hi,
{
    if !(hi <= 0 || hi > bins.len()) && bins[hi - 1].id != id {
        lemma_index_of_below_some(bins, id, hi - 1, i);
    }
}

/// A bin at index `i` with the id being sought is found at or below any
/// higher bound, at `i` itself when ids are strictly increasing.
pub proof fn lemma_index_of_below_finds(bins: Seq<Bin>, hi: int, i: int)
    requires
        0 <= i < hi <= bins.len(),
        forall|p: int, q: int|
            0 <= p < q < bins.len() ==> (#[trigger] bins[p]).id < (#[trigger] bins[q]).id,
    ensures
        index_of_below(bins, bins[i].id, hi) == Some(i),
    decreases hi,
{
    if hi - 1 > i {
        lemma_index_of_below_finds(bins, hi - 1, i);
    }
}

/// Per-bin hook list invariant: distinct hook ids, all below the counter.
pub open spec fn bin_hooks_wf(b: Bin) -> bool {
    &&& forall|a: int, c: int|
        0 <= a < c < b.hooks@.len() ==> (#[trigger] b.hooks@[a]).id != (#[trigger] b.hooks@[c]).id
    &&& forall|a: int| 0 <= a < b.hooks@.len() ==> (#[trigger] b.hooks@[a]).id < b.next_hook_id
}

impl Interface {
    /// The registry invariant: ids strictly increasing along the arena and
    /// below the allocation counter; every parent link points to a
    /// registered bin with a smaller id (hence at a lower index); hook ids
    /// distinct per bin; the hover set sorted and the dispatcher state
    /// pointing at registered bins only.
    pub open spec fn wf(self) -> bool {
        &&& forall|i: int, j: int|
            0 <= i < j < self.bins@.len() ==> (#[trigger] self.bins@[i]).id < (
            #[trigger] self.bins@[j]).id
        &&& forall|i: int| 0 <= i < self.bins@.len() ==> (#[trigger] self.bins@[i]).id < self.next_id
        &&& forall|i: int|
            0 <= i < self.bins@.len() ==> match (#[trigger] self.bins@[i]).parent {
                Some(p) => p < self.bins@[i].id && index_of_below(self.bins@, p, i) is Some,
                None => true,
            }
        &&& forall|i: int| 0 <= i < self.bins@.len() ==> bin_hooks_wf(#[trigger] self.bins@[i])
        &&& forall|a: int, c: int|
            0 <= a < c < self.events.mouse_in@.len() ==> #[trigger] self.events.mouse_in@[a]
                < #[trigger] self.events.mouse_in@[c]
        &&& forall|a: int|
            0 <= a < self.events.mouse_in@.len() ==> id_exists(
                self.bins@,
                #[trigger] self.events.mouse_in@[a],
            )
        &&& match self.events.focused {
            Some(f) => id_exists(self.bins@, f),
            None => true,
        }
    }

    /// An empty scene graph: no bins, ids start at zero, nothing focused or
    /// hovered.
    pub fn new() -> (itf: Interface)
        ensures
            itf.wf(),
            itf.bins@.len() == 0,
            itf.next_id == 0,
            itf.events.focused is None,
            itf.events.mouse_in@.len() == 0,
    {
        Interface {
            bins: Vec::new(),
            next_id: 0,
            events: EventsData { focused: None, mouse_in: Vec::new() },
        }
    }

    /// Creates `amt` bins with default style and fresh, strictly increasing
    /// ids, registers them, and returns their ids in creation order. No
    /// returned id was ever used before, and the ids continue from the
    /// allocation counter.
    pub fn new_bins(&mut self, amt: usize) -> (ids: Vec<u64>)
        requires
            old(self).wf(),
            old(self).next_id + amt <= u64::MAX,
        ensures
            final(self).wf(),
            ids@.len() == amt,
            forall|k: int| 0 <= k < amt ==> ids@[k] == old(self).next_id + k,
            final(self).next_id == old(self).next_id + amt,
            final(self).bins@.len() == old(self).bins@.len() + amt,
            forall|i: int|
                0 <= i < old(self).bins@.len() ==> final(self).bins@[i] == old(self).bins@[i],
            forall|k: int|
                0 <= k < amt ==> {
                    let b = #[trigger] final(self).bins@[old(self).bins@.len() + k];
                    b.id == old(self).next_id + k && b.parent is None
                        && crate::style::is_default_style(b.style) && b.hooks@.len() == 0
                },
            final(self).events == old(self).events,
    {
        let mut ids: Vec<u64> = Vec::new();
        let ghost bins0 = self.bins@;
        let ghost id0 = self.next_id;
        let mut k: usize = 0;
        while k < amt
            invariant
                self.wf(),
                id0 + amt <= u64::MAX,
                0 <= k <= amt,
                self.next_id == id0 + k,
                ids@.len() == k,
                forall|j: int| 0 <= j < k ==> ids@[j] == id0 + j,
                self.bins@.len() == bins0.len() + k,
                forall|i: int| 0 <= i < bins0.len() ==> self.bins@[i] == bins0[i],
                forall|j: int|
                    0 <= j < k ==> {
                        let b = #[trigger] self.bins@[bins0.len() + j];
                        b.id == id0 + j && b.parent is None && crate::style::is_default_style(
                            b.style,
                        ) && b.hooks@.len() == 0
                    },
                self.events == old(self).events,
            decreases amt - k,
        {
            let id = self.next_id;
            self.next_id = self.next_id + 1;
            let ghost prev = self.bins@;
            let bin = Bin {
                id,
                parent: None,
                style: Style::default(),
                hooks: Vec::new(),
                next_hook_id: 0,
            };
            self.bins.push(bin);
            ids.push(id);
            proof {
                let ghost b = self.bins@.last();
                assert(self.bins@ =~= prev.push(b));
                assert forall|i: int| 0 <= i < self.bins@.len() implies match (
                #[trigger] self.bins@[i]).parent {
                    Some(p) => p < self.bins@[i].id && index_of_below(self.bins@, p, i) is Some,
                    None => true,
                } by {
                    if i < prev.len() {
                        match self.bins@[i].parent {
                            Some(p) => {
                                lemma_index_of_prefix_push(prev, b, p, i);
                            },
                            None => {},
                        }
                    }
                }
                lemma_id_exists_push(prev, b);
                assert forall|a: int|
                    0 <= a < self.events.mouse_in@.len() implies id_exists(
                    self.bins@,
                    #[trigger] self.events.mouse_in@[a],
                ) by {
                    assert(id_exists(prev, self.events.mouse_in@[a]));
                }
            }
            k = k + 1;
        }
        ids
    }

    /// Creates one bin and returns its id.
    pub fn new_bin(&mut self) -> (id: u64)
        requires
            old(self).wf(),
            old(self).next_id < u64::MAX,
        ensures
            final(self).wf(),
            id == old(self).next_id,
            final(self).next_id == old(self).next_id + 1,
            final(self).bins@.len() == old(self).bins@.len() + 1,
            forall|i: int|
                0 <= i < old(self).bins@.len() ==> final(self).bins@[i] == old(self).bins@[i],
            final(self).bins@.last().id == id,
            final(self).events == old(self).events,
    {
        let ids = self.new_bins(1);
        proof {
            assert(self.bins@[old(self).bins@.len() as int + 0].id == old(self).next_id);
        }
        ids[0]
    }

    /// Looks a bin up by id.
    pub fn get_bin(&self, id: u64) -> (r: Option<&Bin>)
        ensures
            match r {
                Some(b) => index_of_id(self.bins@, id) is Some && *b == self.bins@[index_of_id(
                    self.bins@,
                    id,
                ).unwrap()],
                None => index_of_id(self.bins@, id) is None,
            },
    {
        match self.find_index(id) {
            Some(i) => Some(&self.bins[i]),
            None => None,
        }
    }

    /// Scans the arena for the index carrying `id`.
    pub(crate) fn find_index(&self, id: u64) -> (r: Option<usize>)
        ensures
            match r {
                Some(i) => i < self.bins@.len() && index_of_id(self.bins@, id) == Some(i as int),
                None => index_of_id(self.bins@, id) is None,
            },
    {
        let n = self.bins.len();
        let mut i: usize = n;
        while i > 0
            invariant
                n == self.bins@.len(),
                0 <= i <= n,
                index_of_below(self.bins@, id, n as int) == index_of_below(
                    self.bins@,
                    id,
                    i as int,
                ),
            decreases i,
        {
            if self.bins[i - 1].id == id {
                return Some(i - 1);
            }
            i = i - 1;
        }
        None
    }
}

/// A node's resolved geometry: its absolute pixel rectangle and its
/// stacking order.
#[derive(Clone, Copy, Debug, PartialEq, Eq, Structural)]
pub struct ResolvedGeo {
    pub rect: Rect,
    pub z: i64,
}

/// An optional length resolved against a base dimension; unset stays unset.
pub open spec fn opt_px(o: Option<PxOrPct>, base: int) -> Option<int> {
    match o {
        Some(l) => Some(l.as_px_spec(base)),
        None => None,
    }
}

/// The value of an optional resolved length, or zero.
pub open spec fn opt_px_or_zero(o: Option<PxOrPct>, base: int) -> int {
    match opt_px(o, base) {
        Some(v) => v,
        None => 0,
    }
}

/// The anchor a style resolves against: the declared one, else the parent
/// when there is one, else the window.
pub open spec fn effective_anchor(s: Style, has_parent: bool) -> Position {
    match s.position {
        Some(p) => p,
        None => if has_parent {
            Position::Parent
        } else {
            Position::Window
        },
    }
}

/// Resolves one node's geometry against a fixed base rectangle.
///
/// With `bw`/`bh` the base's dimensions clamped at zero (the percentage
/// bases; an undefined base resolves percentages against zero):
/// - width: the `width` length if set; else the slack between the `l` and
///   `r` edge offsets when both are set; else zero — then shifted by
///   `width_offset`; height alike from `t`/`b`;
/// - x: the base's left edge plus the `l` offset; or right-anchored via `r`
///   when only that is set; then shifted by the margin difference and
///   `hori_offset`; y alike;
/// - z: the declared `z_index`, else one above the parent.
/// All arithmetic saturates at the `i64` bounds.
#[verifier::opaque]
pub open spec fn compute_geo_spec(s: Style, base: Rect, parent_z: int) -> ResolvedGeo {
    let bw = if base.w > 0 { base.w as int } else { 0 };
    let bh = if base.h > 0 { base.h as int } else { 0 };
    let l = opt_px(s.pos_from_l, bw);
    let r = opt_px(s.pos_from_r, bw);
    let t = opt_px(s.pos_from_t, bh);
    let b = opt_px(s.pos_from_b, bh);
    let w0 = match opt_px(s.width, bw) {
        Some(wv) => wv,
        None => match (l, r) {
            (Some(lv), Some(rv)) => sat_sub_spec(sat_sub_spec(bw, lv), rv),
            _ => 0,
        },
    };
    let w = sat_add_spec(w0, opt_px_or_zero(s.width_offset, bw));
    let h0 = match opt_px(s.height, bh) {
        Some(hv) => hv,
        None => match (t, b) {
            (Some(tv), Some(bv)) => sat_sub_spec(sat_sub_spec(bh, tv), bv),
            _ => 0,
        },
    };
    let h = sat_add_spec(h0, opt_px_or_zero(s.height_offset, bh));
    let x0 = match l {
        Some(lv) => sat_add_spec(base.x as int, lv),
        None => match r {
            Some(rv) => sat_sub_spec(sat_add_spec(base.x as int, bw), sat_add_spec(rv, w)),
            None => base.x as int,
        },
    };
    let y0 = match t {
        Some(tv) => sat_add_spec(base.y as int, tv),
        None => match b {
            Some(bv) => sat_sub_spec(sat_add_spec(base.y as int, bh), sat_add_spec(bv, h)),
            None => base.y as int,
        },
    };
    let x1 = sat_add_spec(
        x0,
        sat_sub_spec(opt_px_or_zero(s.margin_l, bw), opt_px_or_zero(s.margin_r, bw)),
    );
    let y1 = sat_add_spec(
        y0,
        sat_sub_spec(opt_px_or_zero(s.margin_t, bh), opt_px_or_zero(s.margin_b, bh)),
    );
    let x = sat_add_spec(x1, opt_px_or_zero(s.hori_offset, bw));
    let y = sat_add_spec(y1, opt_px_or_zero(s.vert_offset, bh));
    let z = match s.z_index {
        Some(zv) => zv as int,
        None => sat_add_spec(parent_z, 1),
    };
    ResolvedGeo {
        rect: Rect { x: x as i64, y: y as i64, w: w as i64, h: h as i64 },
        z: z as i64,
    }
}

/// Whether an overflow flag lets children spill past the parent's edge;
/// unset means clipped.
pub open spec fn overflow_allowed(o: Option<bool>) -> bool {
    match o {
        Some(b) => b,
        None => false,
    }
}

/// One axis of the child-to-parent clip: the span `[cx, cx + cw)`
/// intersected with `[px, px + pw)`. A child entirely outside keeps a
/// degenerate span that contains no point.
pub open spec fn clip_axis_spec(cx: i64, cw: i64, px: i64, pw: i64) -> (int, int) {
    let lo: int = if cx >= px {
        cx as int
    } else {
        px as int
    };
    let hi_c = sat_add_spec(cx as int, cw as int);
    let hi_p = sat_add_spec(px as int, pw as int);
    let hi: int = if hi_c <= hi_p {
        hi_c
    } else {
        hi_p
    };
    (lo, sat_sub_spec(hi, lo))
}

/// Clips a child's resolved rectangle to its parent's rectangle on each
/// axis the parent does not allow overflow on, so both drawing and hit
/// testing honor the parent's bounds.
pub open spec fn clip_to_parent_spec(g: ResolvedGeo, parent_style: Style, p: Rect) -> ResolvedGeo {
    let hx = if overflow_allowed(parent_style.overflow_hori) {
        (g.rect.x as int, g.rect.w as int)
    } else {
        clip_axis_spec(g.rect.x, g.rect.w, p.x, p.w)
    };
    let vy = if overflow_allowed(parent_style.overflow_vert) {
        (g.rect.y as int, g.rect.h as int)
    } else {
        clip_axis_spec(g.rect.y, g.rect.h, p.y, p.h)
    };
    ResolvedGeo {
        rect: Rect { x: hx.0 as i64, y: vy.0 as i64, w: hx.1 as i64, h: vy.1 as i64 },
        z: g.z,
    }
}

/// Clips a child's resolved rectangle to its parent's.
fn clip_to_parent(g: ResolvedGeo, parent_style: &Style, p: Rect) -> (r: ResolvedGeo)
    ensures
        r == clip_to_parent_spec(g, *parent_style, p),
{
    let allow_h = match parent_style.overflow_hori {
        Some(b) => b,
        None => false,
    };
    let allow_v = match parent_style.overflow_vert {
        Some(b) => b,
        None => false,
    };
    let (x, w): (i64, i64) = if allow_h {
        (g.rect.x, g.rect.w)
    } else {
        let lo = if g.rect.x >= p.x {
            g.rect.x
        } else {
            p.x
        };
        let hi_c = sat_add(g.rect.x, g.rect.w);
        let hi_p = sat_add(p.x, p.w);
        let hi = if hi_c <= hi_p {
            hi_c
        } else {
            hi_p
        };
        (lo, sat_sub(hi, lo))
    };
    let (y, h): (i64, i64) = if allow_v {
        (g.rect.y, g.rect.h)
    } else {
        let lo = if g.rect.y >= p.y {
            g.rect.y
        } else {
            p.y
        };
        let hi_c = sat_add(g.rect.y, g.rect.h);
        let hi_p = sat_add(p.y, p.h);
        let hi = if hi_c <= hi_p {
            hi_c
        } else {
            hi_p
        };
        (lo, sat_sub(hi, lo))
    };
    ResolvedGeo { rect: Rect { x, y, w, h }, z: g.z }
}

/// The base rectangle a parent offers its children: the parent's resolved
/// rectangle inset by the parent's padding on each side, then shifted
/// left and up by the parent's scroll offsets. Padding and scroll both
/// resolve against the parent's own dimensions.
pub open spec fn child_base_spec(parent_style: Style, pg: ResolvedGeo) -> Rect {
    let pw = if pg.rect.w > 0 { pg.rect.w as int } else { 0 };
    let ph = if pg.rect.h > 0 { pg.rect.h as int } else { 0 };
    let pl = opt_px_or_zero(parent_style.padding_l, pw);
    let pr = opt_px_or_zero(parent_style.padding_r, pw);
    let pt = opt_px_or_zero(parent_style.padding_t, ph);
    let pb = opt_px_or_zero(parent_style.padding_b, ph);
    let sx = opt_px_or_zero(parent_style.scroll_hori, pw);
    let sy = opt_px_or_zero(parent_style.scroll_vert, ph);
    Rect {
        x: sat_sub_spec(sat_add_spec(pg.rect.x as int, pl), sx) as i64,
        y: sat_sub_spec(sat_add_spec(pg.rect.y as int, pt), sy) as i64,
        w: sat_sub_spec(sat_sub_spec(pg.rect.w as int, pl), pr) as i64,
        h: sat_sub_spec(sat_sub_spec(pg.rect.h as int, pt), pb) as i64,
    }
}

/// The resolved geometry of the bin at index `i`: a pure function of its
/// own style and its ancestor chain, resolved top-down. A window-anchored
/// bin resolves against the window rectangle, a floating bin against an
/// empty rectangle at the origin, and a parent-anchored bin against its
/// parent's scrolled rectangle; a parent-anchored bin without a registered
/// parent resolves against an empty base, so percentages degenerate to
/// zero rather than failing.
pub open spec fn resolve_idx_spec(bins: Seq<Bin>, i: int, ww: int, wh: int) -> ResolvedGeo
    decreases i,
{
    if i < 0 || i >= bins.len() {
        ResolvedGeo { rect: Rect { x: 0, y: 0, w: 0, h: 0 }, z: 0 }
    } else {
        let s = bins[i].style;
        let anchor = effective_anchor(s, bins[i].parent is Some);
        match anchor {
            Position::Window => {
                let base = Rect {
                    x: 0,
                    y: 0,
                    w: crate::geom::clamp_i64(ww) as i64,
                    h: crate::geom::clamp_i64(wh) as i64,
                };
                compute_geo_spec(s, base, 0)
            },
            Position::Floating => compute_geo_spec(s, Rect { x: 0, y: 0, w: 0, h: 0 }, 0),
            Position::Parent => {
                match bins[i].parent {
                    Some(pid) => {
                        match index_of_below(bins, pid, i) {
                            Some(pi) => {
                                if 0 <= pi < i {
                                    let pg = resolve_idx_spec(bins, pi, ww, wh);
                                    let g0 = compute_geo_spec(
                                        s,
                                        child_base_spec(bins[pi].style, pg),
                                        pg.z as int,
                                    );
                                    clip_to_parent_spec(g0, bins[pi].style, pg.rect)
                                } else {
                                    compute_geo_spec(s, Rect { x: 0, y: 0, w: 0, h: 0 }, 0)
                                }
                            },
                            None => compute_geo_spec(s, Rect { x: 0, y: 0, w: 0, h: 0 }, 0),
                        }
                    },
                    None => compute_geo_spec(s, Rect { x: 0, y: 0, w: 0, h: 0 }, 0),
                }
            },
        }
    }
}

/// Resolves an optional length against a base dimension.
fn opt_as_px(o: &Option<PxOrPct>, base: i64) -> (r: Option<i64>)
    ensures
        match r {
            Some(v) => opt_px(*o, base as int) == Some(v as int),
            None => opt_px(*o, base as int) is None,
        },
{
    match o {
        Some(l) => Some(l.as_px(base)),
        None => None,
    }
}

/// Resolves an optional length against a base dimension, zero when unset.
fn opt_as_px_or_zero(o: &Option<PxOrPct>, base: i64) -> (r: i64)
    ensures
        r == opt_px_or_zero(*o, base as int),
{
    match o {
        Some(l) => l.as_px(base),
        None => 0,
    }
}

/// Resolves one node's geometry against a fixed base rectangle.
fn compute_geo(s: &Style, base: Rect, parent_z: i64) -> (g: ResolvedGeo)
    ensures
        g == compute_geo_spec(*s, base, parent_z as int),
{
    proof {
        reveal(compute_geo_spec);
    }
    let bw: i64 = if base.w > 0 { base.w } else { 0 };
    let bh: i64 = if base.h > 0 { base.h } else { 0 };
    let l = opt_as_px(&s.pos_from_l, bw);
    let r = opt_as_px(&s.pos_from_r, bw);
    let t = opt_as_px(&s.pos_from_t, bh);
    let b = opt_as_px(&s.pos_from_b, bh);
    let w0: i64 = match opt_as_px(&s.width, bw) {
        Some(wv) => wv,
        None => match (l, r) {
            (Some(lv), Some(rv)) => sat_sub(sat_sub(bw, lv), rv),
            _ => 0,
        },
    };
    let w = sat_add(w0, opt_as_px_or_zero(&s.width_offset, bw));
    let h0: i64 = match opt_as_px(&s.height, bh) {
        Some(hv) => hv,
        None => match (t, b) {
            (Some(tv), Some(bv)) => sat_sub(sat_sub(bh, tv), bv),
            _ => 0,
        },
    };
    let h = sat_add(h0, opt_as_px_or_zero(&s.height_offset, bh));
    let x0: i64 = match l {
        Some(lv) => sat_add(base.x, lv),
        None => match r {
            Some(rv) => sat_sub(sat_add(base.x, bw), sat_add(rv, w)),
            None => base.x,
        },
    };
    let y0: i64 = match t {
        Some(tv) => sat_add(base.y, tv),
        None => match b {
            Some(bv) => sat_sub(sat_add(base.y, bh), sat_add(bv, h)),
            None => base.y,
        },
    };
    let x1 = sat_add(
        x0,
        sat_sub(opt_as_px_or_zero(&s.margin_l, bw), opt_as_px_or_zero(&s.margin_r, bw)),
    );
    let y1 = sat_add(
        y0,
        sat_sub(opt_as_px_or_zero(&s.margin_t, bh), opt_as_px_or_zero(&s.margin_b, bh)),
    );
    let x = sat_add(x1, opt_as_px_or_zero(&s.hori_offset, bw));
    let y = sat_add(y1, opt_as_px_or_zero(&s.vert_offset, bh));
    let z: i64 = match s.z_index {
        Some(zv) => zv as i64,
        None => sat_add(parent_z, 1),
    };
    ResolvedGeo { rect: Rect { x, y, w, h }, z }
}

/// The base rectangle a parent offers its children.
fn child_base(parent_style: &Style, pg: ResolvedGeo) -> (r: Rect)
    ensures
        r == child_base_spec(*parent_style, pg),
{
    let pw: i64 = if pg.rect.w > 0 { pg.rect.w } else { 0 };
    let ph: i64 = if pg.rect.h > 0 { pg.rect.h } else { 0 };
    let pl = opt_as_px_or_zero(&parent_style.padding_l, pw);
    let pr = opt_as_px_or_zero(&parent_style.padding_r, pw);
    let pt = opt_as_px_or_zero(&parent_style.padding_t, ph);
    let pb = opt_as_px_or_zero(&parent_style.padding_b, ph);
    let sx = opt_as_px_or_zero(&parent_style.scroll_hori, pw);
    let sy = opt_as_px_or_zero(&parent_style.scroll_vert, ph);
    Rect {
        x: sat_sub(sat_add(pg.rect.x, pl), sx),
        y: sat_sub(sat_add(pg.rect.y, pt), sy),
        w: sat_sub(sat_sub(pg.rect.w, pl), pr),
        h: sat_sub(sat_sub(pg.rect.h, pt), pb),
    }
}

impl Interface {
    /// Scans the arena below index `hi` for the index carrying `id`.
    pub(crate) fn find_index_below(&self, id: u64, hi: usize) -> (r: Option<usize>)
        requires
            hi <= self.bins@.len(),
        ensures
            match r {
                Some(i) => i < hi && index_of_below(self.bins@, id, hi as int) == Some(i as int),
                None => index_of_below(self.bins@, id, hi as int) is None,
            },
    {
        let mut i: usize = hi;
        while i > 0
            invariant
                hi <= self.bins@.len(),
                0 <= i <= hi,
                index_of_below(self.bins@, id, hi as int) == index_of_below(
                    self.bins@,
                    id,
                    i as int,
                ),
            decreases i,
        {
            if self.bins[i - 1].id == id {
                return Some(i - 1);
            }
            i = i - 1;
        }
        None
    }

    /// Resolves the geometry of the bin at arena index `i`, top-down
    /// through its ancestor chain.
    pub(crate) fn resolve_at(&self, i: usize, win_w: i64, win_h: i64) -> (g: ResolvedGeo)
        requires
            self.wf(),
            i < self.bins@.len(),
        ensures
            g == resolve_idx_spec(self.bins@, i as int, win_w as int, win_h as int),
        decreases i,
    {
        let has_parent = self.bins[i].parent.is_some();
        let anchor = match self.bins[i].style.position {
            Some(p) => p,
            None => if has_parent {
                Position::Parent
            } else {
                Position::Window
            },
        };
        match anchor {
            Position::Window => {
                let base = Rect { x: 0, y: 0, w: win_w, h: win_h };
                compute_geo(&self.bins[i].style, base, 0)
            },
            Position::Floating => {
                compute_geo(&self.bins[i].style, Rect { x: 0, y: 0, w: 0, h: 0 }, 0)
            },
            Position::Parent => {
                match self.bins[i].parent {
                    Some(pid) => {
                        match self.find_index_below(pid, i) {
                            Some(pi) => {
                                let pg = self.resolve_at(pi, win_w, win_h);
                                let pb = child_base(&self.bins[pi].style, pg);
                                let g0 = compute_geo(&self.bins[i].style, pb, pg.z);
                                clip_to_parent(g0, &self.bins[pi].style, pg.rect)
                            },
                            None => {
                                compute_geo(&self.bins[i].style, Rect { x: 0, y: 0, w: 0, h: 0 }, 0)
                            },
                        }
                    },
                    None => compute_geo(&self.bins[i].style, Rect { x: 0, y: 0, w: 0, h: 0 }, 0),
                }
            },
        }
    }

    /// Resolves the geometry of the bin carrying `id` against the current
    /// window size, or `None` for an unregistered id. Resolution never
    /// fails: undefined percentage bases resolve to zero.
    pub fn resolve(&self, id: u64, win_w: i64, win_h: i64) -> (r: Option<ResolvedGeo>)
        requires
            self.wf(),
        ensures
            match index_of_id(self.bins@, id) {
                Some(i) => r == Some(resolve_idx_spec(self.bins@, i, win_w as int, win_h as int)),
                None => r is None,
            },
    {
        match self.find_index(id) {
            Some(i) => Some(self.resolve_at(i, win_w, win_h)),
            None => None,
        }
    }
}

/// Whether a style opts its node out of hit testing.
pub open spec fn passes_input(s: Style) -> bool {
    match s.pass_input {
        Some(b) => b,
        None => false,
    }
}

/// Whether the bin at index `i` is hit by the point `(x, y)`: its resolved
/// rectangle contains the point and it is not marked pass-through.
pub open spec fn bin_hit(bins: Seq<Bin>, i: int, x: int, y: int, ww: int, wh: int) -> bool {
    &&& 0 <= i < bins.len()
    &&& resolve_idx_spec(bins, i, ww, wh).rect.contains_spec(x, y)
    &&& !passes_input(bins[i].style)
}

/// The z order of the bin at index `i`.
pub open spec fn bin_z(bins: Seq<Bin>, i: int, ww: int, wh: int) -> int {
    resolve_idx_spec(bins, i, ww, wh).z as int
}

/// The index scan behind `get_bin_id_atop`: walk the id-ordered arena and
/// keep the latest bin whose z order is at least the best so far. The
/// survivor is the hit bin of highest z; among equal z the one latest in
/// the id-ordered snapshot wins — which is the documented tie-break, not
/// simply insertion order.
pub open spec fn topmost_loop(
    bins: Seq<Bin>,
    x: int,
    y: int,
    ww: int,
    wh: int,
    i: int,
    best: Option<int>,
) -> Option<int>
    decreases bins.len() - i,
{
    if i < 0 || i >= bins.len() {
        best
    } else {
        let nb = if bin_hit(bins, i, x, y, ww, wh) && (match best {
            Some(b) => bin_z(bins, i, ww, wh) >= bin_z(bins, b, ww, wh),
            None => true,
        }) {
            Some(i)
        } else {
            best
        };
        topmost_loop(bins, x, y, ww, wh, i + 1, nb)
    }
}

/// The arena index of the topmost bin under `(x, y)`, if any bin is hit.
pub open spec fn topmost_of(bins: Seq<Bin>, x: int, y: int, ww: int, wh: int) -> Option<int> {
    topmost_loop(bins, x, y, ww, wh, 0, None)
}

/// The scan's survivor is a hit bin that every hit bin is below, or ties
/// with at a lower index; when it reports nothing, nothing is hit.
pub proof fn lemma_topmost_correct(
    bins: Seq<Bin>,
    x: int,
    y: int,
    ww: int,
    wh: int,
    i: int,
    best: Option<int>,
)
    requires
        0 <= i <= bins.len(),
        match best {
            Some(b) => bin_hit(bins, b, x, y, ww, wh) && b < i && forall|j: int|
                0 <= j < i && #[trigger] bin_hit(bins, j, x, y, ww, wh) ==> bin_z(bins, j, ww, wh)
                    < bin_z(bins, b, ww, wh) || (bin_z(bins, j, ww, wh) == bin_z(bins, b, ww, wh)
                    && j <= b),
            None => forall|j: int| 0 <= j < i ==> !(#[trigger] bin_hit(bins, j, x, y, ww, wh)),
        },
    ensures
        match topmost_loop(bins, x, y, ww, wh, i, best) {
            Some(t) => bin_hit(bins, t, x, y, ww, wh) && forall|j: int|
                0 <= j < bins.len() && #[trigger] bin_hit(bins, j, x, y, ww, wh) ==> bin_z(
                    bins,
                    j,
                    ww,
                    wh,
                ) < bin_z(bins, t, ww, wh) || (bin_z(bins, j, ww, wh) == bin_z(bins, t, ww, wh)
                    && j <= t),
            None => forall|j: int| 0 <= j < bins.len() ==> !(#[trigger] bin_hit(
                bins,
                j,
                x,
                y,
                ww,
                wh,
            )),
        },
    decreases bins.len() - i,
{
    if i < bins.len() {
        let nb = if bin_hit(bins, i, x, y, ww, wh) && (match best {
            Some(b) => bin_z(bins, i, ww, wh) >= bin_z(bins, b, ww, wh),
            None => true,
        }) {
            Some(i)
        } else {
            best
        };
        lemma_topmost_correct(bins, x, y, ww, wh, i + 1, nb);
    }
}

impl Interface {
    /// The id of the topmost bin under `(x, y)`: among the bins whose
    /// resolved rectangle contains the point and that are not marked
    /// pass-through, the one of highest z order wins; among equal z the
    /// one latest in the id-ordered snapshot wins.
    pub fn get_bin_id_atop(&self, x: i64, y: i64, win_w: i64, win_h: i64) -> (r: Option<u64>)
        requires
            self.wf(),
        ensures
            ({
                let top = topmost_of(self.bins@, x as int, y as int, win_w as int, win_h as int);
                match top {
                    Some(t) => r == Some(self.bins@[t].id) && bin_hit(
                        self.bins@,
                        t,
                        x as int,
                        y as int,
                        win_w as int,
                        win_h as int,
                    ) && forall|j: int|
                        0 <= j < self.bins@.len() && #[trigger] bin_hit(
                            self.bins@,
                            j,
                            x as int,
                            y as int,
                            win_w as int,
                            win_h as int,
                        ) ==> bin_z(self.bins@, j, win_w as int, win_h as int) < bin_z(
                            self.bins@,
                            t,
                            win_w as int,
                            win_h as int,
                        ) || (bin_z(self.bins@, j, win_w as int, win_h as int) == bin_z(
                            self.bins@,
                            t,
                            win_w as int,
                            win_h as int,
                        ) && j <= t),
                    None => r is None && forall|j: int|
                        0 <= j < self.bins@.len() ==> !(#[trigger] bin_hit(
                            self.bins@,
                            j,
                            x as int,
                            y as int,
                            win_w as int,
                            win_h as int,
                        )),
                }
            }),
    {
        proof {
            lemma_topmost_correct(
                self.bins@,
                x as int,
                y as int,
                win_w as int,
                win_h as int,
                0,
                None,
            );
        }
        let idx = self.topmost_index(x, y, win_w, win_h);
        match idx {
            Some(t) => {
                proof {
                    assert(topmost_of(self.bins@, x as int, y as int, win_w as int, win_h as int)
                        == Some(t as int));
                }
                Some(self.bins[t].id)
            },
            None => {
                proof {
                    assert(topmost_of(self.bins@, x as int, y as int, win_w as int, win_h as int)
                        is None);
                }
                None
            },
        }
    }

    /// The topmost bin under `(x, y)` itself, under the same rule as
    /// `get_bin_id_atop`.
    pub fn get_bin_atop(&self, x: i64, y: i64, win_w: i64, win_h: i64) -> (r: Option<&Bin>)
        requires
            self.wf(),
        ensures
            ({
                let top = topmost_of(self.bins@, x as int, y as int, win_w as int, win_h as int);
                match top {
                    Some(t) => match r {
                        Some(b) => *b == self.bins@[t],
                        None => false,
                    },
                    None => r is None,
                }
            }),
    {
        match self.topmost_index(x, y, win_w, win_h) {
            Some(t) => Some(&self.bins[t]),
            None => None,
        }
    }

    /// The arena index of the topmost bin under `(x, y)`.
    #[verifier::rlimit(60)]
    pub(crate) fn topmost_index(&self, x: i64, y: i64, win_w: i64, win_h: i64) -> (r: Option<
        usize,
    >)
        requires
            self.wf(),
        ensures
            match r {
                Some(i) => i < self.bins@.len() && topmost_of(
                    self.bins@,
                    x as int,
                    y as int,
                    win_w as int,
                    win_h as int,
                ) == Some(i as int),
                None => topmost_of(self.bins@, x as int, y as int, win_w as int, win_h as int)
                    is None,
            },
    {
        let ghost gx = x as int;
        let ghost gy = y as int;
        let ghost gw = win_w as int;
        let ghost gh = win_h as int;
        let n = self.bins.len();
        let mut best: Option<(usize, i64)> = None;
        let mut i: usize = 0;
        while i < n
            invariant
                self.wf(),
                n == self.bins@.len(),
                0 <= i <= n,
                gx == x as int,
                gy == y as int,
                gw == win_w as int,
                gh == win_h as int,
                match best {
                    Some((b, bz)) => b < n && bz == resolve_idx_spec(self.bins@, b as int, gw, gh).z
                        && topmost_of(self.bins@, gx, gy, gw, gh) == topmost_loop(
                        self.bins@,
                        gx,
                        gy,
                        gw,
                        gh,
                        i as int,
                        Some(b as int),
                    ),
                    None => topmost_of(self.bins@, gx, gy, gw, gh) == topmost_loop(
                        self.bins@,
                        gx,
                        gy,
                        gw,
                        gh,
                        i as int,
                        None,
                    ),
                },
            decreases n - i,
        {
            let g = self.resolve_at(i, win_w, win_h);
            let pass = match self.bins[i].style.pass_input {
                Some(b) => b,
                None => false,
            };
            let hit = g.rect.contains(x, y) && !pass;
            let ghost old_best = best;
            let take = hit && (match best {
                Some((_, bz)) => g.z >= bz,
                None => true,
            });
            if take {
                best = Some((i, g.z));
            }
            proof {
                let bins = self.bins@;
                let bspec: Option<int> = match old_best {
                    Some((b, _)) => Some(b as int),
                    None => None,
                };
                let nbspec: Option<int> = match best {
                    Some((b, _)) => Some(b as int),
                    None => None,
                };
                assert(bin_hit(bins, i as int, gx, gy, gw, gh) == hit);
                assert(topmost_loop(bins, gx, gy, gw, gh, i as int, bspec) == topmost_loop(
                    bins,
                    gx,
                    gy,
                    gw,
                    gh,
                    i as int + 1,
                    nbspec,
                ));
            }
            i = i + 1;
        }
        match best {
            Some((b, _)) => Some(b),
            None => None,
        }
    }

    /// Whether any bin's resolved rectangle contains `(x, y)`, pass-through
    /// bins included.
    pub fn mouse_inside(&self, mouse_x: i64, mouse_y: i64, win_w: i64, win_h: i64) -> (r: bool)
        requires
            self.wf(),
        ensures
            r == exists|i: int|
                0 <= i < self.bins@.len() && (#[trigger] resolve_idx_spec(
                    self.bins@,
                    i,
                    win_w as int,
                    win_h as int,
                )).rect.contains_spec(mouse_x as int, mouse_y as int),
    {
        let n = self.bins.len();
        let mut i: usize = 0;
        while i < n
            invariant
                self.wf(),
                n == self.bins@.len(),
                0 <= i <= n,
                forall|j: int|
                    0 <= j < i ==> !(#[trigger] resolve_idx_spec(
                        self.bins@,
                        j,
                        win_w as int,
                        win_h as int,
                    )).rect.contains_spec(mouse_x as int, mouse_y as int),
            decreases n - i,
        {
            let g = self.resolve_at(i, win_w, win_h);
            if g.rect.contains(mouse_x, mouse_y) {
                return true;
            }
            i = i + 1;
        }
        false
    }
}

/// Two arenas whose bins carry the same ids agree on every id search.
pub proof fn lemma_index_same_ids(b1: Seq<Bin>, b2: Seq<Bin>, id: u64, hi: int)
    requires
        b1.len() == b2.len(),
        forall|k: int| 0 <= k < b1.len() ==> (#[trigger] b1[k]).id == (#[trigger] b2[k]).id,
    ensures
        index_of_below(b1, id, hi) == index_of_below(b2, id, hi),
    decreases hi,
{
    if !(hi <= 0 || hi > b1.len()) {
        lemma_index_same_ids(b1, b2, id, hi - 1);
    }
}

impl Interface {
    /// Replaces the style of the bin carrying `id` wholesale. Returns
    /// whether the bin exists; an unknown id changes nothing. Style
    /// mutation never fails on a registered bin, and geometry needs no
    /// separate invalidation: it is recomputed from current styles on
    /// every resolution.
    pub fn update_style(&mut self, id: u64, style: Style) -> (ok: bool)
        requires
            old(self).wf(),
        ensures
            final(self).wf(),
            final(self).next_id == old(self).next_id,
            final(self).events == old(self).events,
            ok == id_exists(old(self).bins@, id),
            match index_of_id(old(self).bins@, id) {
                Some(i) => {
                    &&& final(self).bins@.len() == old(self).bins@.len()
                    &&& forall|k: int|
                        0 <= k < old(self).bins@.len() && k != i ==> final(self).bins@[k] == old(
                            self,
                        ).bins@[k]
                    &&& final(self).bins@[i].id == old(self).bins@[i].id
                    &&& final(self).bins@[i].parent == old(self).bins@[i].parent
                    &&& final(self).bins@[i].hooks == old(self).bins@[i].hooks
                    &&& final(self).bins@[i].next_hook_id == old(self).bins@[i].next_hook_id
                    &&& final(self).bins@[i].style == style
                },
                None => final(self).bins@ == old(self).bins@,
            },
    {
        let ghost bins0 = self.bins@;
        match self.find_index(id) {
            Some(i) => {
                let b = self.bins.remove(i);
                let b2 = Bin {
                    id: b.id,
                    parent: b.parent,
                    style,
                    hooks: b.hooks,
                    next_hook_id: b.next_hook_id,
                };
                self.bins.insert(i, b2);
                proof {
                    assert(self.bins@.len() == bins0.len());
                    assert forall|k: int|
                        0 <= k < bins0.len() && k != i implies self.bins@[k] == bins0[k] by {}
                    lemma_same_ids_wf(*old(self), *self);
                }
                true
            },
            None => false,
        }
    }

    /// Makes the bin carrying `child_id` a child of the bin carrying
    /// `parent_id`. Succeeds exactly when both are registered and the
    /// parent's id is smaller than the child's — parents are always
    /// allocated before their children, which is what rules out ownership
    /// cycles. On failure nothing changes.
    pub fn add_child(&mut self, parent_id: u64, child_id: u64) -> (ok: bool)
        requires
            old(self).wf(),
        ensures
            final(self).wf(),
            final(self).next_id == old(self).next_id,
            final(self).events == old(self).events,
            ok == (id_exists(old(self).bins@, parent_id) && id_exists(old(self).bins@, child_id)
                && parent_id < child_id),
            match index_of_id(old(self).bins@, child_id) {
                Some(i) => if ok {
                    &&& final(self).bins@.len() == old(self).bins@.len()
                    &&& forall|k: int|
                        0 <= k < old(self).bins@.len() && k != i ==> final(self).bins@[k] == old(
                            self,
                        ).bins@[k]
                    &&& final(self).bins@[i].id == old(self).bins@[i].id
                    &&& final(self).bins@[i].parent == Some(parent_id)
                    &&& final(self).bins@[i].style == old(self).bins@[i].style
                    &&& final(self).bins@[i].hooks == old(self).bins@[i].hooks
                    &&& final(self).bins@[i].next_hook_id == old(self).bins@[i].next_hook_id
                } else {
                    final(self).bins@ == old(self).bins@
                },
                None => final(self).bins@ == old(self).bins@,
            },
    {
        if parent_id >= child_id {
            return false;
        }
        let pi = match self.find_index(parent_id) {
            Some(pi) => pi,
            None => {
                return false;
            },
        };
        let ci = match self.find_index(child_id) {
            Some(ci) => ci,
            None => {
                return false;
            },
        };
        let ghost bins0 = self.bins@;
        let b = self.bins.remove(ci);
        let b2 = Bin {
            id: b.id,
            parent: Some(parent_id),
            style: b.style,
            hooks: b.hooks,
            next_hook_id: b.next_hook_id,
        };
        self.bins.insert(ci, b2);
        proof {
            assert(self.bins@.len() == bins0.len());
            assert forall|k: int| 0 <= k < bins0.len() && k != ci implies self.bins@[k]
                == bins0[k] by {}
            // The parent sits at a lower index than the child because ids
            // increase along the arena.
            lemma_index_of_below_some(bins0, parent_id, bins0.len() as int, pi as int);
            lemma_index_of_below_some(bins0, child_id, bins0.len() as int, ci as int);
            assert(pi < ci);
            lemma_same_ids_wf_relinked(*old(self), *self, ci as int, pi as int);
        }
        true
    }

    /// The ids of the ancestors of the bin at index `i`, innermost first.
    pub(crate) fn ancestors_at(&self, i: usize) -> (r: Vec<usize>)
        requires
            self.wf(),
            i < self.bins@.len(),
        ensures
            r@.map_values(|k: usize| k as int) == ancestor_indices(self.bins@, i as int),
            forall|k: int| 0 <= k < r@.len() ==> (#[trigger] r@[k]) < self.bins@.len(),
        decreases i,
    {
        let mut out: Vec<usize> = Vec::new();
        match self.bins[i].parent {
            Some(pid) => {
                match self.find_index_below(pid, i) {
                    Some(pi) => {
                        out.push(pi);
                        let rest = self.ancestors_at(pi);
                        let n = rest.len();
                        let mut k: usize = 0;
                        while k < n
                            invariant
                                n == rest@.len(),
                                0 <= k <= n,
                                self.wf(),
                                forall|j: int|
                                    0 <= j < rest@.len() ==> (#[trigger] rest@[j])
                                        < self.bins@.len(),
                                out@.len() == k + 1,
                                forall|j: int| 0 <= j < k ==> out@[j + 1] == rest@[j],
                                out@[0] == pi,
                            decreases n - k,
                        {
                            let v = rest[k];
                            out.push(v);
                            k = k + 1;
                        }
                        proof {
                            let m1 = out@.map_values(|q: usize| q as int);
                            let m2 = ancestor_indices(self.bins@, i as int);
                            assert(m2 =~= seq![pi as int] + ancestor_indices(
                                self.bins@,
                                pi as int,
                            ));
                            assert(rest@.map_values(|q: usize| q as int) == ancestor_indices(
                                self.bins@,
                                pi as int,
                            ));
                            assert(m1.len() == m2.len());
                            assert forall|k2: int| 0 <= k2 < m1.len() implies m1[k2]
                                == m2[k2] by {
                                if k2 == 0 {
                                    assert(out@[0] == pi);
                                } else {
                                    assert(out@[k2] == rest@[k2 - 1]);
                                }
                            }
                            assert(m1 =~= m2);
                            assert forall|k2: int| 0 <= k2 < out@.len() implies (
                            #[trigger] out@[k2]) < self.bins@.len() by {
                                if k2 == 0 {
                                } else {
                                    assert(out@[k2] == rest@[k2 - 1]);
                                }
                            }
                        }
                        out
                    },
                    None => out,
                }
            },
            None => out,
        }
    }
}

/// The arena indices of the ancestor chain of the bin at index `i`,
/// innermost first.
pub open spec fn ancestor_indices(bins: Seq<Bin>, i: int) -> Seq<int>
    decreases i,
{
    if i < 0 || i >= bins.len() {
        Seq::empty()
    } else {
        match bins[i].parent {
            Some(pid) => match index_of_below(bins, pid, i) {
                Some(pi) => if 0 <= pi < i {
                    seq![pi] + ancestor_indices(bins, pi)
                } else {
                    Seq::empty()
                },
                None => Seq::empty(),
            },
            None => Seq::empty(),
        }
    }
}

/// Along an ancestor chain the ids strictly decrease: every ancestor was
/// allocated, and so registered, before its descendants.
pub proof fn lemma_ancestors_decreasing(bins: Seq<Bin>, i: int)
    requires
        0 <= i < bins.len(),
        forall|p: int, q: int|
            0 <= p < q < bins.len() ==> (#[trigger] bins[p]).id < (#[trigger] bins[q]).id,
    ensures
        ({
            let c = ancestor_indices(bins, i);
            &&& forall|k: int| 0 <= k < c.len() ==> 0 <= #[trigger] c[k] < bins.len()
            &&& forall|k: int| 0 <= k < c.len() ==> bins[#[trigger] c[k]].id < bins[i].id
            &&& forall|k: int, l: int|
                0 <= k < l < c.len() ==> bins[#[trigger] c[l]].id < bins[#[trigger] c[k]].id
        }),
    decreases i,
{
    let c = ancestor_indices(bins, i);
    match bins[i].parent {
        Some(pid) => {
            match index_of_below(bins, pid, i) {
                Some(pi) => {
                    lemma_index_of_below_some(bins, pid, i, pi);
                    if 0 <= pi < i {
                        lemma_ancestors_decreasing(bins, pi);
                        let cp = ancestor_indices(bins, pi);
                        assert(c =~= seq![pi] + cp);
                        assert forall|k: int| 0 <= k < c.len() implies bins[#[trigger] c[k]].id
                            < bins[i].id by {
                            if k > 0 {
                                assert(c[k] == cp[k - 1]);
                            }
                        }
                        assert forall|k: int, l: int| 0 <= k < l < c.len() implies bins[
                            #[trigger] c[l]
                        ].id < bins[#[trigger] c[k]].id by {
                            assert(c[l] == cp[l - 1]);
                            if k > 0 {
                                assert(c[k] == cp[k - 1]);
                            }
                        }
                    }
                },
                None => {},
            }
        },
        None => {},
    }
}

/// An id-preserving, parent-preserving, hook-preserving rewrite of the
/// arena preserves the registry invariant.
pub proof fn lemma_same_ids_wf(a: Interface, b: Interface)
    requires
        a.wf(),
        b.bins@.len() == a.bins@.len(),
        forall|k: int|
            0 <= k < a.bins@.len() ==> (#[trigger] b.bins@[k]).id == (#[trigger] a.bins@[k]).id,
        forall|k: int|
            0 <= k < a.bins@.len() ==> (#[trigger] b.bins@[k]).parent == (
            #[trigger] a.bins@[k]).parent,
        forall|k: int| 0 <= k < a.bins@.len() ==> bin_hooks_wf(#[trigger] b.bins@[k]),
        b.next_id == a.next_id,
        b.events == a.events,
    ensures
        b.wf(),
{
    assert forall|p: int, q: int| 0 <= p < q < b.bins@.len() implies (#[trigger] b.bins@[p]).id < (
    #[trigger] b.bins@[q]).id by {
        assert(b.bins@[p].id == a.bins@[p].id);
        assert(b.bins@[q].id == a.bins@[q].id);
    }
    assert forall|i: int| 0 <= i < b.bins@.len() implies (#[trigger] b.bins@[i]).id
        < b.next_id by {
        assert(b.bins@[i].id == a.bins@[i].id);
    }
    assert forall|i: int| 0 <= i < b.bins@.len() implies match (#[trigger] b.bins@[i]).parent {
        Some(p) => p < b.bins@[i].id && index_of_below(b.bins@, p, i) is Some,
        None => true,
    } by {
        assert(b.bins@[i].id == a.bins@[i].id);
        assert(b.bins@[i].parent == a.bins@[i].parent);
        match b.bins@[i].parent {
            Some(p) => {
                lemma_index_same_ids(a.bins@, b.bins@, p, i);
            },
            None => {},
        }
    }
    assert forall|k: int|
        0 <= k < b.events.mouse_in@.len() implies id_exists(
        b.bins@,
        #[trigger] b.events.mouse_in@[k],
    ) by {
        lemma_index_same_ids(a.bins@, b.bins@, b.events.mouse_in@[k], a.bins@.len() as int);
    }
    match b.events.focused {
        Some(f) => {
            lemma_index_same_ids(a.bins@, b.bins@, f, a.bins@.len() as int);
        },
        None => {},
    }
}

/// Relinking one bin's parent to a lower-index bin preserves the registry
/// invariant.
pub proof fn lemma_same_ids_wf_relinked(a: Interface, b: Interface, ci: int, pi: int)
    requires
        a.wf(),
        b.bins@.len() == a.bins@.len(),
        forall|k: int|
            0 <= k < a.bins@.len() ==> (#[trigger] b.bins@[k]).id == (#[trigger] a.bins@[k]).id,
        forall|k: int|
            0 <= k < a.bins@.len() && k != ci ==> (#[trigger] b.bins@[k]).parent == (
            #[trigger] a.bins@[k]).parent,
        forall|k: int| 0 <= k < a.bins@.len() ==> bin_hooks_wf(#[trigger] b.bins@[k]),
        0 <= pi < ci < a.bins@.len(),
        b.bins@[ci].parent == Some(b.bins@[pi].id),
        b.next_id == a.next_id,
        b.events == a.events,
    ensures
        b.wf(),
{
    assert forall|p: int, q: int| 0 <= p < q < b.bins@.len() implies (#[trigger] b.bins@[p]).id < (
    #[trigger] b.bins@[q]).id by {
        assert(b.bins@[p].id == a.bins@[p].id);
        assert(b.bins@[q].id == a.bins@[q].id);
    }
    assert forall|i: int| 0 <= i < b.bins@.len() implies (#[trigger] b.bins@[i]).id
        < b.next_id by {
        assert(b.bins@[i].id == a.bins@[i].id);
    }
    assert forall|i: int| 0 <= i < b.bins@.len() implies match (#[trigger] b.bins@[i]).parent {
        Some(p) => p < b.bins@[i].id && index_of_below(b.bins@, p, i) is Some,
        None => true,
    } by {
        assert(b.bins@[i].id == a.bins@[i].id);
        if i == ci {
            lemma_index_of_below_finds(b.bins@, ci, pi);
        } else {
            assert(b.bins@[i].parent == a.bins@[i].parent);
            match b.bins@[i].parent {
                Some(p) => {
                    lemma_index_same_ids(a.bins@, b.bins@, p, i);
                },
                None => {},
            }
        }
    }
    assert forall|k: int|
        0 <= k < b.events.mouse_in@.len() implies id_exists(
        b.bins@,
        #[trigger] b.events.mouse_in@[k],
    ) by {
        lemma_index_same_ids(a.bins@, b.bins@, b.events.mouse_in@[k], a.bins@.len() as int);
    }
    match b.events.focused {
        Some(f) => {
            lemma_index_same_ids(a.bins@, b.bins@, f, a.bins@.len() as int);
        },
        None => {},
    }
}

/// Resolution is deterministic: the resolved geometry is a pure function
/// of the registry's styles and links and of the window size, so repeated
/// resolution of any node with unchanged styles and unchanged ancestors
/// yields identical pixel rectangles.
pub proof fn lemma_resolve_deterministic(bins1: Seq<Bin>, bins2: Seq<Bin>, i: int, ww: int, wh: int)
    requires
        bins1 == bins2,
    ensures
        resolve_idx_spec(bins1, i, ww, wh) == resolve_idx_spec(bins2, i, ww, wh),
{
}

/// Resolution is framed by the ancestor chain: two registries with the
/// same ids everywhere that agree on a node's style and parent link, and
/// on those of each of its ancestors, resolve that node to the same
/// geometry — style changes elsewhere in the scene cannot move it.
pub proof fn lemma_resolve_frame(bins1: Seq<Bin>, bins2: Seq<Bin>, i: int, ww: int, wh: int)
    requires
        bins1.len() == bins2.len(),
        forall|k: int| 0 <= k < bins1.len() ==> (#[trigger] bins1[k]).id == (#[trigger] bins2[k]).id,
        0 <= i < bins1.len(),
        bins1[i].style == bins2[i].style,
        bins1[i].parent == bins2[i].parent,
        forall|k: int|
            ancestor_indices(bins1, i).contains(k) ==> (#[trigger] bins1[k]).style
                == bins2[k].style && bins1[k].parent == bins2[k].parent,
    ensures
        resolve_idx_spec(bins1, i, ww, wh) == resolve_idx_spec(bins2, i, ww, wh),
        ancestor_indices(bins1, i) == ancestor_indices(bins2, i),
    decreases i,
{
    match bins1[i].parent {
        Some(pid) => {
            lemma_index_same_ids(bins1, bins2, pid, i);
            match index_of_below(bins1, pid, i) {
                Some(pi) => {
                    lemma_index_of_below_some(bins1, pid, i, pi);
                    if 0 <= pi < i {
                        let c1 = ancestor_indices(bins1, i);
                        assert(c1 == seq![pi] + ancestor_indices(bins1, pi));
                        assert(c1.contains(pi)) by {
                            assert(c1[0] == pi);
                        }
                        assert forall|k: int|
                            ancestor_indices(bins1, pi).contains(k) implies (
                        #[trigger] bins1[k]).style == bins2[k].style && bins1[k].parent
                            == bins2[k].parent by {
                            let w = choose|w: int|
                                0 <= w < ancestor_indices(bins1, pi).len() && ancestor_indices(
                                    bins1,
                                    pi,
                                )[w] == k;
                            assert(c1[w + 1] == k);
                            assert(c1.contains(k));
                        }
                        lemma_resolve_frame(bins1, bins2, pi, ww, wh);
                        assert(ancestor_indices(bins1, i) =~= ancestor_indices(bins2, i));
                    }
                },
                None => {},
            }
        },
        None => {},
    }
}

/// Searching below `i` is unaffected by a bin pushed at the end.
pub proof fn lemma_index_of_prefix_push(bins: Seq<Bin>, b: Bin, id: u64, i: int)
    requires
        0 <= i <= bins.len(),
    ensures
        index_of_below(bins.push(b), id, i) == index_of_below(bins, id, i),
    decreases i,
{
    if i > 0 {
        lemma_index_of_prefix_push(bins, b, id, i - 1);
    }
}

/// Every id registered before a push is still registered after it, and the
/// pushed bin's id is registered too.
pub proof fn lemma_id_exists_push(bins: Seq<Bin>, b: Bin)
    ensures
        forall|id: u64| id_exists(bins, id) ==> #[trigger] id_exists(bins.push(b), id),
        id_exists(bins.push(b), b.id),
{
    assert forall|id: u64| id_exists(bins, id) implies #[trigger] id_exists(bins.push(b), id) by {
        match index_of_id(bins, id) {
            Some(i) => {
                lemma_index_of_below_some(bins, id, bins.len() as int, i);
                lemma_index_of_exists_somewhere(bins.push(b), id, i);
            },
            None => {},
        }
    }
    lemma_index_of_exists_somewhere(bins.push(b), b.id, bins.len() as int);
}

/// A bin whose id matches at index `i` makes the full scan succeed.
pub proof fn lemma_index_of_exists_somewhere(bins: Seq<Bin>, id: u64, i: int)
    requires
        0 <= i < bins.len(),
        bins[i].id == id,
    ensures
        index_of_id(bins, id) is Some,
{
    lemma_scan_hits(bins, id, i, bins.len() as int);
}

/// The downward scan from any bound above a matching index finds some match.
pub proof fn lemma_scan_hits(bins: Seq<Bin>, id: u64, i: int, hi: int)
    requires
        0 <= i < hi <= bins.len(),
        bins[i].id == id,
    ensures
        index_of_below(bins, id, hi) is Some,
    decreases hi,
{
    if hi - 1 != i && bins[hi - 1].id != id {
        lemma_scan_hits(bins, id, i, hi - 1);
    }
}

} // verus!
