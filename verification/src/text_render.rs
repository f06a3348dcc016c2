//! Building text out of scene-graph bins: a container bin holds one child
//! bin per glyph, each child backed by the glyph's cached atlas bitmap.
//! The glyph bitmap cache maps (pixel size, codepoint) to an atlas region
//! plus bearing and advance metrics, created on the first request for a
//! key and never recreated while the cache lives.

use vstd::prelude::*;
use crate::atlas::{atlas_load, atlas_wf, Atlas, AtlasModel, Coords};
use crate::interface::Interface;
use crate::style::{Position, PxOrPct, Style};
use crate::text::{BstTextError, BstTextErrorSrc, BstTextErrorTy, GlyphInput};

verus! {

/// One cached glyph: its atlas region and the metrics needed to place it.
#[derive(Clone, Copy, Debug, PartialEq, Eq, Structural)]
pub struct GlyphCacheEntry {
    pub coords: Coords,
    pub bearing_x: i64,
    pub bearing_y: i64,
    pub advance_x: i64,
}

/// The first cached entry for `key` at or after `i`.
pub open spec fn cache_lookup_from(
    entries: Seq<((u32, u32), GlyphCacheEntry)>,
    key: (u32, u32),
    i: int,
) -> Option<GlyphCacheEntry>
    decreases entries.len() - i,
{
    if i < 0 || i >= entries.len() {
        None
    } else if entries[i].0 == key {
        Some(entries[i].1)
    } else {
        cache_lookup_from(entries, key, i + 1)
    }
}

/// A missed scan finds no entry with the key.
pub proof fn lemma_cache_lookup_none(
    entries: Seq<((u32, u32), GlyphCacheEntry)>,
    key: (u32, u32),
    i: int,
)
    requires
        0 <= i,
        cache_lookup_from(entries, key, i) is None,
    ensures
        forall|j: int| i <= j < entries.len() ==> (#[trigger] entries[j]).0 != key,
    decreases entries.len() - i,
{
    if i < entries.len() {
        lemma_cache_lookup_none(entries, key, i + 1);
    }
}

/// The glyph bitmap cache: (pixel size, codepoint) to cached entry, in
/// insertion order, each key held at most once.
pub struct BstGlyphBitmapCache {
    pub entries: Vec<((u32, u32), GlyphCacheEntry)>,
}

impl BstGlyphBitmapCache {
    /// The cached entry for `key`, if one was created.
    pub open spec fn lookup_spec(self, key: (u32, u32)) -> Option<GlyphCacheEntry> {
        cache_lookup_from(self.entries@, key, 0)
    }

    /// The cache invariant: keys distinct.
    pub open spec fn wf(self) -> bool {
        forall|i: int, j: int|
            0 <= i < j < self.entries@.len() ==> (#[trigger] self.entries@[i]).0 != (
            #[trigger] self.entries@[j]).0
    }

    /// An empty cache.
    pub fn new() -> (c: BstGlyphBitmapCache)
        ensures
            c.wf(),
            c.entries@.len() == 0,
    {
        BstGlyphBitmapCache { entries: Vec::new() }
    }

    /// The cached entry for `key`, creating nothing.
    pub fn get(&self, size: u32, codepoint: u32) -> (r: Option<GlyphCacheEntry>)
        ensures
            r == self.lookup_spec((size, codepoint)),
    {
        let n = self.entries.len();
        let mut i: usize = 0;
        while i < n
            invariant
                n == self.entries@.len(),
                0 <= i <= n,
                cache_lookup_from(self.entries@, (size, codepoint), 0) == cache_lookup_from(
                    self.entries@,
                    (size, codepoint),
                    i as int,
                ),
            decreases n - i,
        {
            let (k, e) = self.entries[i];
            if k.0 == size && k.1 == codepoint {
                proof {
                    assert(self.entries@[i as int].0 == (size, codepoint));
                }
                return Some(e);
            }
            proof {
                assert(self.entries@[i as int].0 != (size, codepoint));
            }
            i = i + 1;
        }
        None
    }

    /// The cached entry for the glyph's key, or a fresh one: a hit changes
    /// neither the cache nor the atlas and performs no upload; a miss
    /// uploads the bitmap through the atlas (which itself deduplicates by
    /// key) and records the entry with the glyph's bearing and advance
    /// metrics. So each key is rasterized and uploaded at most once for
    /// the life of the cache. A capacity failure changes nothing.
    pub fn bitmap_for_glyph(&mut self, atlas: &mut Atlas, size: u32, g: &GlyphInput) -> (r: Result<
        GlyphCacheEntry,
        BstTextError,
    >)
        requires
            old(self).wf(),
            atlas_wf(old(atlas)@),
        ensures
            final(self).wf(),
            atlas_wf(final(atlas)@),
            match old(self).lookup_spec((size, g.shaped.codepoint)) {
                Some(e) => r == Ok::<GlyphCacheEntry, BstTextError>(e) && *final(self) == *old(
                    self,
                ) && final(atlas)@ == old(atlas)@,
                None => {
                    let lr = atlas_load(
                        old(atlas)@,
                        crate::text::glyph_key(size, *g),
                        g.bitmap_w as int,
                        g.bitmap_h as int,
                    );
                    match lr.0 {
                        Ok(c) => {
                            let e = GlyphCacheEntry {
                                coords: c,
                                bearing_x: g.metrics.hori_bearing_x,
                                bearing_y: g.metrics.hori_bearing_y,
                                advance_x: g.shaped.x_advance,
                            };
                            &&& r == Ok::<GlyphCacheEntry, BstTextError>(e)
                            &&& final(atlas)@ == lr.1
                            &&& final(self).entries@ == old(self).entries@.push(
                                ((size, g.shaped.codepoint), e),
                            )
                            &&& final(self).lookup_spec((size, g.shaped.codepoint)) == Some(e)
                        },
                        Err(_) => r == Err::<GlyphCacheEntry, BstTextError>(
                            BstTextError {
                                src: BstTextErrorSrc::Atlas,
                                ty: BstTextErrorTy::CapacityExceeded,
                            },
                        ) && final(atlas)@ == old(atlas)@ && *final(self) == *old(self),
                    }
                },
            },
    {
        let key = (size, g.shaped.codepoint);
        if let Some(e) = self.get(size, g.shaped.codepoint) {
            return Ok(e);
        }
        let akey = crate::atlas::ImageKey::Glyph(size, g.shaped.codepoint as u64);
        match atlas.load_or_get(akey, &g.bitmap, g.bitmap_w, g.bitmap_h) {
            Ok(c) => {
                let e = GlyphCacheEntry {
                    coords: c,
                    bearing_x: g.metrics.hori_bearing_x,
                    bearing_y: g.metrics.hori_bearing_y,
                    advance_x: g.shaped.x_advance,
                };
                let ghost entries0 = self.entries@;
                self.entries.push((key, e));
                proof {
                    lemma_cache_lookup_none(entries0, key, 0);
                    lemma_cache_lookup_push(entries0, key, e, 0);
                }
                Ok(e)
            },
            Err(_) => {
                Err(
                    BstTextError {
                        src: BstTextErrorSrc::Atlas,
                        ty: BstTextErrorTy::CapacityExceeded,
                    },
                )
            },
        }
    }
}

/// A key pushed at the end is found when no earlier entry carries it.
pub proof fn lemma_cache_lookup_push(
    entries: Seq<((u32, u32), GlyphCacheEntry)>,
    key: (u32, u32),
    e: GlyphCacheEntry,
    i: int,
)
    requires
        0 <= i <= entries.len(),
        forall|j: int| 0 <= j < entries.len() ==> (#[trigger] entries[j]).0 != key,
    ensures
        cache_lookup_from(entries.push((key, e)), key, i) == Some(e),
    decreases entries.len() - i,
{
    if i < entries.len() {
        lemma_cache_lookup_push(entries, key, e, i + 1);
    }
}

/// One shaped glyph of a text run, positioned in 26.6 fixed point.
#[derive(Clone, Copy, Debug, PartialEq, Eq, Structural)]
pub struct BstGlyph {
    pub codepoint: u32,
    pub x: i64,
    pub y: i64,
}

/// One glyph of a built text: the shaped glyph and the bin drawn for it.
#[derive(Clone, Copy, Debug, PartialEq, Eq, Structural)]
pub struct BstGlyphData {
    pub glyph: BstGlyph,
    pub bin: u64,
}

/// A text built out of bins: the container bin's id and one entry per
/// glyph.
pub struct BasaltText {
    pub container: u64,
    pub glyph_data: Vec<BstGlyphData>,
}

/// Pushing an entry for one key leaves every other key's lookup alone.
pub proof fn lemma_cache_lookup_push_other(
    entries: Seq<((u32, u32), GlyphCacheEntry)>,
    key: (u32, u32),
    e: GlyphCacheEntry,
    key2: (u32, u32),
    i: int,
)
    requires
        0 <= i,
        key2 != key,
    ensures
        cache_lookup_from(entries.push((key, e)), key2, i) == cache_lookup_from(entries, key2, i),
    decreases entries.len() - i,
{
    if i < entries.len() + 1 {
        if i < entries.len() {
            lemma_cache_lookup_push_other(entries, key, e, key2, i + 1);
        }
    }
}

/// One step of the per-glyph load fold: the cache and atlas transition
/// that loading one glyph performs — exactly what `bitmap_for_glyph`
/// does. A key already cached changes nothing; a fresh key loads the
/// bitmap through the atlas and records the entry; a capacity failure
/// changes nothing.
#[verifier::opaque]
pub open spec fn glyph_load_step(
    entries: Seq<((u32, u32), GlyphCacheEntry)>,
    a: AtlasModel,
    size: u32,
    g: GlyphInput,
) -> (Result<GlyphCacheEntry, BstTextError>, Seq<((u32, u32), GlyphCacheEntry)>, AtlasModel) {
    match cache_lookup_from(entries, (size, g.shaped.codepoint), 0) {
        Some(e) => (Ok(e), entries, a),
        None => {
            let lr = atlas_load(
                a,
                crate::text::glyph_key(size, g),
                g.bitmap_w as int,
                g.bitmap_h as int,
            );
            match lr.0 {
                Ok(c) => {
                    let e = GlyphCacheEntry {
                        coords: c,
                        bearing_x: g.metrics.hori_bearing_x,
                        bearing_y: g.metrics.hori_bearing_y,
                        advance_x: g.shaped.x_advance,
                    };
                    (Ok(e), entries.push(((size, g.shaped.codepoint), e)), lr.1)
                },
                Err(_) => (
                    Err(
                        BstTextError {
                            src: BstTextErrorSrc::Atlas,
                            ty: BstTextErrorTy::CapacityExceeded,
                        },
                    ),
                    entries,
                    a,
                ),
            }
        },
    }
}

/// The fold of the per-glyph loads from glyph `k` on: whether they all
/// succeed, and the cache entries and atlas as they stand afterward — on
/// a failure, exactly as they stood when the failing glyph was reached.
pub open spec fn glyph_load_fold(
    entries: Seq<((u32, u32), GlyphCacheEntry)>,
    a: AtlasModel,
    size: u32,
    glyphs: Seq<(BstGlyph, GlyphInput)>,
    k: int,
) -> (Result<(), BstTextError>, Seq<((u32, u32), GlyphCacheEntry)>, AtlasModel)
    decreases glyphs.len() - k,
{
    if k < 0 || k >= glyphs.len() {
        (Ok(()), entries, a)
    } else {
        let st = glyph_load_step(entries, a, size, glyphs[k].1);
        match st.0 {
            Err(e) => (Err(e), st.1, st.2),
            Ok(_) => glyph_load_fold(st.1, st.2, size, glyphs, k + 1),
        }
    }
}

/// How many glyphs from `k` on load before the first failure: the whole
/// remainder when every load succeeds.
pub open spec fn glyph_load_ok_count(
    entries: Seq<((u32, u32), GlyphCacheEntry)>,
    a: AtlasModel,
    size: u32,
    glyphs: Seq<(BstGlyph, GlyphInput)>,
    k: int,
) -> int
    decreases glyphs.len() - k,
{
    if k < 0 || k >= glyphs.len() {
        0
    } else {
        let st = glyph_load_step(entries, a, size, glyphs[k].1);
        match st.0 {
            Err(_) => 0,
            Ok(_) => 1 + glyph_load_ok_count(st.1, st.2, size, glyphs, k + 1),
        }
    }
}

/// Whether a style is the one given to a text container bin: anchored to
/// its parent, flush with its top, left and right edges, `h` pixels tall,
/// and free to overflow vertically.
pub open spec fn container_styled(s: Style, h: i64) -> bool {
    &&& s.position == Some(Position::Parent)
    &&& s.pos_from_t == Some(PxOrPct::Px(0))
    &&& s.pos_from_l == Some(PxOrPct::Px(0))
    &&& s.pos_from_r == Some(PxOrPct::Px(0))
    &&& s.height == Some(PxOrPct::Px(h))
    &&& s.overflow_vert == Some(true)
}

/// Whether a style is the one given to a glyph bin: anchored to the
/// container at `(x, y)`, sized to the glyph bitmap, backed by the
/// glyph's atlas region.
pub open spec fn glyph_bin_styled(s: Style, x: i64, y: i64, w: i64, h: i64, c: Coords) -> bool {
    &&& s.position == Some(Position::Parent)
    &&& s.pos_from_l == Some(PxOrPct::Px(x))
    &&& s.pos_from_t == Some(PxOrPct::Px(y))
    &&& s.width == Some(PxOrPct::Px(w))
    &&& s.height == Some(PxOrPct::Px(h))
    &&& s.back_image_atlas == Some(c)
}

/// Builds a text as a tree of bins: allocates one container bin and one
/// bin per glyph, anchors the container to its parent-to-be spanning the
/// font's ascent-to-descent height, and anchors each glyph bin inside the
/// container at its shaped position adjusted by its bitmap bearings,
/// backed by the glyph's cached atlas region. The container is allocated
/// first, so its id precedes its children's. On a capacity failure the
/// bins allocated so far stay registered, as in any partial failure of a
/// text-creation call; the cache and atlas keep every entry already made.
#[verifier::rlimit(100)]
pub fn create_basalt_text(
    itf: &mut Interface,
    cache: &mut BstGlyphBitmapCache,
    atlas: &mut Atlas,
    size: u32,
    glyphs: &Vec<(BstGlyph, GlyphInput)>,
    ascender: i64,
    descender: i64,
) -> (r: Result<BasaltText, BstTextError>)
    requires
        old(itf).wf(),
        old(cache).wf(),
        atlas_wf(old(atlas)@),
        old(itf).next_id + glyphs@.len() + 1 <= u64::MAX,
        glyphs@.len() + 1 <= usize::MAX,
    ensures
        final(itf).wf(),
        final(cache).wf(),
        atlas_wf(final(atlas)@),
        final(itf).bins@.len() == old(itf).bins@.len() + glyphs@.len() + 1,
        final(itf).next_id == old(itf).next_id + glyphs@.len() + 1,
        forall|i: int|
            0 <= i < old(itf).bins@.len() ==> final(itf).bins@[i] == old(itf).bins@[i],
        // The cache and atlas are pinned to the per-glyph load fold, and
        // the call succeeds exactly when every glyph's load does: on a
        // failure they hold exactly the entries made before the failing
        // glyph.
        ({
            let fold = glyph_load_fold(old(cache).entries@, old(atlas)@, size, glyphs@, 0);
            &&& final(cache).entries@ == fold.1
            &&& final(atlas)@ == fold.2
            &&& (r is Ok <==> fold.0 is Ok)
        }),
        // The container bin is allocated and styled whatever the outcome.
        ({
            let cb = final(itf).bins@[old(itf).bins@.len() as int];
            cb.id == old(itf).next_id && container_styled(
                cb.style,
                ceil64_spec(
                    crate::geom::sat_sub_spec(ascender as int, descender as int) as i64,
                ) as i64,
            )
        }),
        match r {
            Ok(t) => {
                &&& t.container == old(itf).next_id
                &&& t.glyph_data@.len() == glyphs@.len()
                &&& forall|k: int|
                    0 <= k < glyphs@.len() ==> (#[trigger] t.glyph_data@[k]).bin == old(
                        itf,
                    ).next_id + 1 + k && t.glyph_data@[k].glyph == glyphs@[k].0
                &&& forall|k: int|
                    0 <= k < glyphs@.len() ==> ({
                        let gb = #[trigger] final(itf).bins@[old(itf).bins@.len() + 1 + k];
                        let g = glyphs@[k];
                        let e = final(cache).lookup_spec((size, g.1.shaped.codepoint)).unwrap();
                        &&& gb.id == old(itf).next_id + 1 + k
                        &&& gb.parent == Some(t.container)
                        &&& final(cache).lookup_spec((size, g.1.shaped.codepoint)) is Some
                        &&& glyph_bin_styled(
                            gb.style,
                            floor64_spec(
                                crate::geom::sat_add_spec(g.0.x as int, e.bearing_x as int) as i64,
                            ) as i64,
                            ceil64_spec(
                                crate::geom::sat_add_spec(g.0.y as int, e.bearing_y as int) as i64,
                            ) as i64,
                            g.1.bitmap_w as i64,
                            g.1.bitmap_h as i64,
                            e.coords,
                        )
                    })
            },
            Err(e) => ({
                // Glyph bins before the failing glyph are attached and
                // styled; the rest stay as allocated — registered with
                // default style and no parent, since the arena does not
                // drop bins.
                let kf = glyph_load_ok_count(old(cache).entries@, old(atlas)@, size, glyphs@, 0);
                &&& e == (BstTextError {
                    src: BstTextErrorSrc::Atlas,
                    ty: BstTextErrorTy::CapacityExceeded,
                })
                &&& 0 <= kf < glyphs@.len()
                &&& forall|k: int|
                    0 <= k < kf ==> ({
                        let gb = #[trigger] final(itf).bins@[old(itf).bins@.len() + 1 + k];
                        let g = glyphs@[k];
                        let e2 = final(cache).lookup_spec((size, g.1.shaped.codepoint)).unwrap();
                        &&& gb.id == old(itf).next_id + 1 + k
                        &&& gb.parent == Some(old(itf).next_id)
                        &&& final(cache).lookup_spec((size, g.1.shaped.codepoint)) is Some
                        &&& glyph_bin_styled(
                            gb.style,
                            floor64_spec(
                                crate::geom::sat_add_spec(g.0.x as int, e2.bearing_x as int) as i64,
                            ) as i64,
                            ceil64_spec(
                                crate::geom::sat_add_spec(g.0.y as int, e2.bearing_y as int) as i64,
                            ) as i64,
                            g.1.bitmap_w as i64,
                            g.1.bitmap_h as i64,
                            e2.coords,
                        )
                    })
                &&& forall|k: int|
                    kf <= k < glyphs@.len() ==> ({
                        let gb = #[trigger] final(itf).bins@[old(itf).bins@.len() + 1 + k];
                        gb.id == old(itf).next_id + 1 + k && gb.parent is None
                            && crate::style::is_default_style(gb.style)
                    })
            }),
        },
{
    let n = glyphs.len();
    let ids = itf.new_bins(n + 1);
    let container = ids[0];
    let ghost len0 = old(itf).bins@.len() as int;
    let ghost id0 = old(itf).next_id;
    let ghost bins1 = itf.bins@;
    let ghost e0 = old(cache).entries@;
    let ghost a0 = old(atlas)@;
    let ghost glyphsv = glyphs@;
    let height = ceil64(crate::geom::sat_sub(ascender, descender));
    let mut cstyle = Style::default();
    cstyle.position = Some(Position::Parent);
    cstyle.pos_from_t = Some(PxOrPct::Px(0));
    cstyle.pos_from_l = Some(PxOrPct::Px(0));
    cstyle.pos_from_r = Some(PxOrPct::Px(0));
    cstyle.height = Some(PxOrPct::Px(height));
    cstyle.overflow_vert = Some(true);
    proof {
        assert forall|kk: int| 0 <= kk < n + 1 implies (#[trigger] bins1[len0 + kk]).id == id0 + kk
            && bins1[len0 + kk].parent is None && crate::style::is_default_style(
            bins1[len0 + kk].style,
        ) by {}
        assert(bins1[len0 + 0].id == id0 + 0);
        assert(bins1[len0].id == id0);
        crate::interface::lemma_index_of_below_finds(itf.bins@, itf.bins@.len() as int, len0);
    }
    let _ = itf.update_style(container, cstyle);
    proof {
        assert(container_styled(itf.bins@[len0].style, height));
        assert forall|j: int| 0 <= j < n implies ({
            let gb = #[trigger] itf.bins@[len0 + 1 + j];
            gb.id == id0 + 1 + j && gb.parent is None && crate::style::is_default_style(gb.style)
        }) by {
            let kk = 1 + j;
            assert(bins1[len0 + kk].id == id0 + kk && bins1[len0 + kk].parent is None
                && crate::style::is_default_style(bins1[len0 + kk].style));
            assert(itf.bins@[len0 + kk] == bins1[len0 + kk]);
        }
    }
    let mut glyph_data: Vec<BstGlyphData> = Vec::new();
    let mut failed: Option<BstTextError> = None;
    let mut k: usize = 0;
    while k < n && failed.is_none()
        invariant
            n == glyphs@.len(),
            0 <= k <= n,
            match failed {
                Some(e) => k < n && e == (BstTextError {
                    src: BstTextErrorSrc::Atlas,
                    ty: BstTextErrorTy::CapacityExceeded,
                }) && glyph_load_fold(cache.entries@, atlas@, size, glyphsv, k as int) == (
                    Err::<(), BstTextError>(e),
                    cache.entries@,
                    atlas@,
                ) && glyph_load_ok_count(cache.entries@, atlas@, size, glyphsv, k as int) == 0,
                None => true,
            },
            itf.wf(),
            cache.wf(),
            atlas_wf(atlas@),
            old(itf).wf(),
            len0 == old(itf).bins@.len(),
            id0 == old(itf).next_id,
            e0 == old(cache).entries@,
            a0 == old(atlas)@,
            glyphsv == glyphs@,
            glyph_load_fold(e0, a0, size, glyphsv, 0) == glyph_load_fold(
                cache.entries@,
                atlas@,
                size,
                glyphsv,
                k as int,
            ),
            glyph_load_ok_count(e0, a0, size, glyphsv, 0) == k + glyph_load_ok_count(
                cache.entries@,
                atlas@,
                size,
                glyphsv,
                k as int,
            ),
            id0 + n + 1 <= u64::MAX,
            container == id0,
            itf.bins@.len() == len0 + n + 1,
            itf.next_id == id0 + n + 1,
            forall|i: int| 0 <= i < len0 ==> itf.bins@[i] == old(itf).bins@[i],
            itf.bins@[len0].id == id0 && container_styled(itf.bins@[len0].style, height),
            forall|j: int|
                0 <= j < k ==> ({
                    let gb = #[trigger] itf.bins@[len0 + 1 + j];
                    let g = glyphs@[j];
                    let e = cache.lookup_spec((size, g.1.shaped.codepoint)).unwrap();
                    &&& gb.id == id0 + 1 + j
                    &&& gb.parent == Some(container)
                    &&& cache.lookup_spec((size, g.1.shaped.codepoint)) is Some
                    &&& glyph_bin_styled(
                        gb.style,
                        floor64_spec(
                            crate::geom::sat_add_spec(g.0.x as int, e.bearing_x as int) as i64,
                        ) as i64,
                        ceil64_spec(
                            crate::geom::sat_add_spec(g.0.y as int, e.bearing_y as int) as i64,
                        ) as i64,
                        g.1.bitmap_w as i64,
                        g.1.bitmap_h as i64,
                        e.coords,
                    )
                }),
            forall|j: int|
                k <= j < n ==> ({
                    let gb = #[trigger] itf.bins@[len0 + 1 + j];
                    gb.id == id0 + 1 + j && gb.parent is None && crate::style::is_default_style(
                        gb.style,
                    )
                }),
            glyph_data@.len() == k,
            forall|j: int|
                0 <= j < k ==> (#[trigger] glyph_data@[j]).bin == id0 + 1 + j
                    && glyph_data@[j].glyph == glyphs@[j].0,
        decreases n - k, (if failed is Some {
            0int
        } else {
            1int
        }),
    {
        let (bg, gi) = &glyphs[k];
        let ghost cache_pre = *cache;
        let ghost a_pre = atlas@;
        let step_result = cache.bitmap_for_glyph(atlas, size, gi);
        let entry = match step_result {
            Ok(e) => e,
            Err(e) => {
                proof {
                    // The failing step pins the fold: the cache and atlas
                    // stand exactly as they did when this glyph was
                    // reached, and the count of loaded glyphs is `k`.
                    reveal(glyph_load_step);
                    let st = glyph_load_step(cache_pre.entries@, a_pre, size, glyphsv[k as int].1);
                    assert(st.0 == Err::<GlyphCacheEntry, BstTextError>(e));
                    assert(glyph_load_fold(cache.entries@, atlas@, size, glyphsv, k as int) == (
                        Err::<(), BstTextError>(e),
                        cache.entries@,
                        atlas@,
                    ));
                    assert(glyph_load_ok_count(cache.entries@, atlas@, size, glyphsv, k as int)
                        == 0);
                }
                failed = Some(e);
                continue ;
            },
        };
        proof {
            // One more glyph loaded: the fold and count advance in step.
            reveal(glyph_load_step);
            let st = glyph_load_step(cache_pre.entries@, a_pre, size, glyphsv[k as int].1);
            assert(st.0 == Ok::<GlyphCacheEntry, BstTextError>(entry));
            assert(st.1 == cache.entries@);
            assert(st.2 == atlas@);
            assert(glyph_load_fold(cache_pre.entries@, a_pre, size, glyphsv, k as int)
                == glyph_load_fold(cache.entries@, atlas@, size, glyphsv, k as int + 1));
            assert(glyph_load_ok_count(cache_pre.entries@, a_pre, size, glyphsv, k as int) == 1
                + glyph_load_ok_count(cache.entries@, atlas@, size, glyphsv, k as int + 1));
        }
        proof {
            // Processed glyphs' cache entries are untouched: a hit changes
            // nothing, and a miss pushes a key no processed glyph carries.
            assert forall|j: int| 0 <= j < k implies cache.lookup_spec(
                (size, glyphs@[j].1.shaped.codepoint),
            ) == cache_pre.lookup_spec((size, glyphs@[j].1.shaped.codepoint)) by {
                assert(itf.bins@[len0 + 1 + j].id == id0 + 1 + j);
                let key2 = (size, glyphs@[j].1.shaped.codepoint);
                let key = (size, glyphs@[k as int].1.shaped.codepoint);
                match cache_pre.lookup_spec(key) {
                    Some(_) => {},
                    None => {
                        if key2 != key {
                            lemma_cache_lookup_push_other(
                                cache_pre.entries@,
                                key,
                                entry,
                                key2,
                                0,
                            );
                        }
                    },
                }
            }
            assert(cache.lookup_spec((size, glyphs@[k as int].1.shaped.codepoint)) == Some(entry));
        }
        let child_id = container + 1 + (k as u64);
        proof {
            assert(itf.bins@[len0 + 1 + k].id == id0 + 1 + k);
            crate::interface::lemma_index_of_below_finds(
                itf.bins@,
                itf.bins@.len() as int,
                len0 + 1 + k,
            );
            assert(itf.bins@[len0].id == id0);
            crate::interface::lemma_index_of_below_finds(itf.bins@, itf.bins@.len() as int, len0);
        }
        let _ = itf.add_child(container, child_id);
        proof {
            assert(itf.bins@[len0 + 1 + k].id == id0 + 1 + k);
            crate::interface::lemma_index_of_below_finds(
                itf.bins@,
                itf.bins@.len() as int,
                len0 + 1 + k,
            );
        }
        let mut gstyle = Style::default();
        gstyle.position = Some(Position::Parent);
        gstyle.pos_from_l = Some(PxOrPct::Px(floor64(crate::geom::sat_add(bg.x, entry.bearing_x))));
        gstyle.pos_from_t = Some(PxOrPct::Px(ceil64(crate::geom::sat_add(bg.y, entry.bearing_y))));
        gstyle.width = Some(PxOrPct::Px(gi.bitmap_w as i64));
        gstyle.height = Some(PxOrPct::Px(gi.bitmap_h as i64));
        gstyle.back_image_atlas = Some(entry.coords);
        let _ = itf.update_style(child_id, gstyle);
        glyph_data.push(BstGlyphData { glyph: *bg, bin: child_id });
        proof {
            assert(itf.bins@[len0 + 1 + k].id == id0 + 1 + k);
            assert(itf.bins@[len0 + 1 + k].parent == Some(container));
            assert(glyph_bin_styled(
                itf.bins@[len0 + 1 + k].style,
                floor64_spec(
                    crate::geom::sat_add_spec(
                        glyphs@[k as int].0.x as int,
                        entry.bearing_x as int,
                    ) as i64,
                ) as i64,
                ceil64_spec(
                    crate::geom::sat_add_spec(
                        glyphs@[k as int].0.y as int,
                        entry.bearing_y as int,
                    ) as i64,
                ) as i64,
                glyphs@[k as int].1.bitmap_w as i64,
                glyphs@[k as int].1.bitmap_h as i64,
                entry.coords,
            ));
        }
        k = k + 1;
    }
    match failed {
        Some(e) => Err(e),
        None => Ok(BasaltText { container, glyph_data }),
    }
}

/// Floor of a 26.6 fixed-point value, in whole pixels.
pub open spec fn floor64_spec(v: i64) -> int {
    (v as int) / 64
}

/// Ceiling of a 26.6 fixed-point value, in whole pixels.
pub open spec fn ceil64_spec(v: i64) -> int {
    -((-(v as int)) / 64)
}

/// Floor of a 26.6 fixed-point value.
pub fn floor64(v: i64) -> (r: i64)
    ensures
        r == floor64_spec(v),
{
    if v >= 0 {
        ((v as u64) / 64) as i64
    } else {
        let m: u128 = (-(v as i128)) as u128;
        let q: u128 = m / 64;
        let rem: u128 = m % 64;
        if rem == 0 {
            -(q as i64)
        } else {
            -((q + 1) as i64)
        }
    }
}

/// Ceiling of a 26.6 fixed-point value.
pub fn ceil64(v: i64) -> (r: i64)
    ensures
        r == ceil64_spec(v),
{
    if v >= 0 {
        let m: u64 = v as u64;
        let q: u64 = m / 64;
        let rem: u64 = m % 64;
        if rem == 0 {
            q as i64
        } else {
            (q + 1) as i64
        }
    } else {
        let m: u128 = (-(v as i128)) as u128;
        -((m / 64) as i64)
    }
}

} // verus!
