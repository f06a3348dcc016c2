//! The texture atlas allocator: packs pixel regions into one or more backing
//! images and hands out stable region handles. Packing is shelf-based: each
//! image is a stack of horizontal shelves, each shelf filled left to right.
//!
//! The allocator is an idempotent keyed cache: a key is uploaded at most
//! once, and a repeated request returns the stored region without a new
//! upload. Two distinct keys never receive overlapping regions of the same
//! image; regions are never moved or evicted.
//!
//! The pixel upload itself is a collaborator's job: the caller hands the
//! returned region and the bytes to the presentation layer. This module
//! decides where the bytes go and counts how often an upload was needed.

use vstd::prelude::*;

verus! {

/// A cache key: a rasterized glyph (pixel size, codepoint) or a caller
/// image with its own id.
#[derive(Clone, Copy, Debug, PartialEq, Eq, Structural)]
pub enum ImageKey {
    Glyph(u32, u64),
    Image(u64),
}

/// A stable region handle: backing image id (1-based), a per-atlas
/// sub-region ordinal (1-based, in upload order), and the pixel rectangle
/// inside the backing image.
#[derive(Clone, Copy, Debug, PartialEq, Eq, Structural)]
pub struct Coords {
    pub img_id: u64,
    pub sub_img_id: u64,
    pub x: u32,
    pub y: u32,
    pub w: u32,
    pub h: u32,
}

impl Coords {
    /// Top-left pixel corner of the region.
    pub fn top_left(&self) -> (r: (u32, u32))
        ensures
            r == (self.x, self.y),
    {
        (self.x, self.y)
    }

    /// Top-right pixel corner of the region.
    pub fn top_right(&self) -> (r: (u32, u32))
        requires
            self.x + self.w <= u32::MAX,
        ensures
            r == (((self.x + self.w) as u32), self.y),
    {
        (self.x + self.w, self.y)
    }

    /// Bottom-left pixel corner of the region.
    pub fn bottom_left(&self) -> (r: (u32, u32))
        requires
            self.y + self.h <= u32::MAX,
        ensures
            r == (self.x, ((self.y + self.h) as u32)),
    {
        (self.x, self.y + self.h)
    }

    /// Bottom-right pixel corner of the region.
    pub fn bottom_right(&self) -> (r: (u32, u32))
        requires
            self.x + self.w <= u32::MAX,
            self.y + self.h <= u32::MAX,
        ensures
            r == (((self.x + self.w) as u32), ((self.y + self.h) as u32)),
    {
        (self.x + self.w, self.y + self.h)
    }
}

/// Whether two regions share a pixel of the same backing image. A region of
/// zero width or height holds no pixel and overlaps nothing.
pub open spec fn coords_overlap(a: Coords, b: Coords) -> bool {
    &&& a.img_id == b.img_id
    &&& a.x < b.x + b.w
    &&& b.x < a.x + a.w
    &&& a.y < b.y + b.h
    &&& b.y < a.y + a.h
}

/// The requested region is wider or taller than any backing image can be.
#[derive(Clone, Copy, Debug, PartialEq, Eq, Structural)]
pub struct AtlasCapacityError {
    pub width: u32,
    pub height: u32,
}

/// One shelf: a horizontal band of a backing image at vertical offset `y`,
/// `height` pixels tall, filled left to right up to `used_x`.
#[derive(Clone, Copy, Debug, PartialEq, Eq, Structural)]
pub struct Shelf {
    pub y: u32,
    pub height: u32,
    pub used_x: u32,
}

/// One backing image: a stack of shelves, contiguous from the top; the next
/// shelf would start at `used_y`.
#[derive(Clone, Debug)]
pub struct AtlasImage {
    pub shelves: Vec<Shelf>,
    pub used_y: u32,
}

/// The mathematical shape of one backing image.
#[verifier::ext_equal]
pub ghost struct ImageModel {
    pub shelves: Seq<Shelf>,
    pub used_y: int,
}

impl View for AtlasImage {
    type V = ImageModel;

    open spec fn view(&self) -> ImageModel {
        ImageModel { shelves: self.shelves@, used_y: self.used_y as int }
    }
}

/// Shelves stack contiguously from the top of the image and stay inside the
/// `max_dim` square.
pub open spec fn image_wf(img: ImageModel, max_dim: int) -> bool {
    &&& forall|i: int| 0 <= i < img.shelves.len() ==> (#[trigger] img.shelves[i]).used_x <= max_dim
    &&& img.shelves.len() > 0 ==> img.shelves[0].y == 0
    &&& forall|i: int|
        0 <= i < img.shelves.len() - 1 ==> (#[trigger] img.shelves[i + 1]).y == img.shelves[i].y
            + img.shelves[i].height
    &&& img.used_y == if img.shelves.len() == 0 {
        0int
    } else {
        img.shelves.last().y + img.shelves.last().height
    }
    &&& img.used_y <= max_dim
}

/// Earlier shelves end at or above where later shelves begin.
pub proof fn lemma_shelf_bands_ordered(img: ImageModel, max_dim: int, i: int, j: int)
    requires
        image_wf(img, max_dim),
        0 <= i < j < img.shelves.len(),
    ensures
        img.shelves[i].y + img.shelves[i].height <= img.shelves[j].y,
    decreases j - i,
{
    if j == i + 1 {
    } else {
        lemma_shelf_bands_ordered(img, max_dim, i + 1, j);
    }
}

/// Every shelf ends at or above `used_y`.
pub proof fn lemma_shelf_below_used_y(img: ImageModel, max_dim: int, i: int)
    requires
        image_wf(img, max_dim),
        0 <= i < img.shelves.len(),
    ensures
        img.shelves[i].y + img.shelves[i].height <= img.used_y,
{
    if i < img.shelves.len() - 1 {
        lemma_shelf_bands_ordered(img, max_dim, i, img.shelves.len() - 1);
    }
}

/// Whether a `w` by `h` region fits on shelf `s` of an image `max_dim` wide.
pub open spec fn shelf_fits(s: Shelf, w: int, h: int, max_dim: int) -> bool {
    h <= s.height && s.used_x + w <= max_dim
}

/// Index of the first shelf at or after `i` that fits a `w` by `h` region.
pub open spec fn first_fit_from(shelves: Seq<Shelf>, w: int, h: int, max_dim: int, i: int) -> Option<
    int,
>
    decreases shelves.len() - i,
{
    if i < 0 || i >= shelves.len() {
        None
    } else if shelf_fits(shelves[i], w, h, max_dim) {
        Some(i)
    } else {
        first_fit_from(shelves, w, h, max_dim, i + 1)
    }
}

/// Whether a backing image can take a `w` by `h` region, on an existing
/// shelf or on a new one below.
pub open spec fn image_can_place(img: ImageModel, w: int, h: int, max_dim: int) -> bool {
    first_fit_from(img.shelves, w, h, max_dim, 0) is Some || img.used_y + h <= max_dim
}

/// Index of the first backing image at or after `i` that can take the region.
pub open spec fn first_image_from(
    images: Seq<ImageModel>,
    w: int,
    h: int,
    max_dim: int,
    i: int,
) -> Option<int>
    decreases images.len() - i,
{
    if i < 0 || i >= images.len() {
        None
    } else if image_can_place(images[i], w, h, max_dim) {
        Some(i)
    } else {
        first_image_from(images, w, h, max_dim, i + 1)
    }
}

/// Where a `w` by `h` region goes in image `img`: the updated image and the
/// region's top-left corner. `None` when the image is full.
pub open spec fn place_in_image(img: ImageModel, w: int, h: int, max_dim: int) -> Option<
    (ImageModel, int, int),
> {
    match first_fit_from(img.shelves, w, h, max_dim, 0) {
        Some(i) => {
            let s = img.shelves[i];
            let img2 = ImageModel {
                shelves: img.shelves.update(
                    i,
                    Shelf { y: s.y, height: s.height, used_x: (s.used_x + w) as u32 },
                ),
                used_y: img.used_y,
            };
            Some((img2, s.used_x as int, s.y as int))
        },
        None => {
            if img.used_y + h <= max_dim {
                let img2 = ImageModel {
                    shelves: img.shelves.push(
                        Shelf { y: img.used_y as u32, height: h as u32, used_x: w as u32 },
                    ),
                    used_y: img.used_y + h,
                };
                Some((img2, 0, img.used_y))
            } else {
                None
            }
        },
    }
}

/// The mathematical shape of the whole allocator.
#[verifier::ext_equal]
pub ghost struct AtlasModel {
    pub max_dim: int,
    pub images: Seq<ImageModel>,
    pub entries: Seq<(ImageKey, Coords)>,
    pub uploads: int,
}

/// The whole allocator: the backing images, the key-to-region cache in
/// upload order, and the number of uploads performed so far.
pub struct Atlas {
    pub max_dim: u32,
    pub images: Vec<AtlasImage>,
    pub entries: Vec<(ImageKey, Coords)>,
    pub upload_count: u64,
}

impl View for Atlas {
    type V = AtlasModel;

    open spec fn view(&self) -> AtlasModel {
        AtlasModel {
            max_dim: self.max_dim as int,
            images: self.images@.map_values(|img: AtlasImage| img@),
            entries: self.entries@,
            uploads: self.upload_count as int,
        }
    }
}

/// The region stored for `key`, if any: first match in upload order.
pub open spec fn lookup_from(entries: Seq<(ImageKey, Coords)>, key: ImageKey, i: int) -> Option<
    Coords,
>
    decreases entries.len() - i,
{
    if i < 0 || i >= entries.len() {
        None
    } else if entries[i].0 == key {
        Some(entries[i].1)
    } else {
        lookup_from(entries, key, i + 1)
    }
}

/// The region stored for `key` in the model, if any.
pub open spec fn atlas_lookup(a: AtlasModel, key: ImageKey) -> Option<Coords> {
    lookup_from(a.entries, key, 0)
}

/// A cached region sits on a shelf of its backing image: same top edge, no
/// taller than the shelf, and entirely left of the shelf's fill line.
pub open spec fn entry_wf(c: Coords, images: Seq<ImageModel>, max_dim: int) -> bool {
    &&& 1 <= c.img_id <= images.len()
    &&& exists|j: int|
        0 <= j < images[c.img_id - 1].shelves.len() && region_on_shelf(
            c,
            #[trigger] images[c.img_id - 1].shelves[j],
        )
}

/// The shelf-fit relation for one region and one shelf.
pub open spec fn region_on_shelf(c: Coords, s: Shelf) -> bool {
    &&& c.y == s.y
    &&& c.h <= s.height
    &&& c.x + c.w <= s.used_x
}

/// The allocator invariant: shelves well formed, every cached region on a
/// shelf of its image with all pixels left of that shelf's fill line, keys
/// distinct, sub-region ordinals in upload order, and no two regions
/// sharing a pixel.
pub open spec fn atlas_wf(a: AtlasModel) -> bool {
    &&& forall|i: int| 0 <= i < a.images.len() ==> image_wf(#[trigger] a.images[i], a.max_dim)
    &&& forall|e: int|
        0 <= e < a.entries.len() ==> entry_wf((#[trigger] a.entries[e]).1, a.images, a.max_dim)
    &&& forall|e: int, f: int|
        0 <= e < f < a.entries.len() ==> (#[trigger] a.entries[e]).0 != (#[trigger] a.entries[f]).0
    &&& forall|e: int, f: int|
        0 <= e < f < a.entries.len() ==> !coords_overlap(
            (#[trigger] a.entries[e]).1,
            (#[trigger] a.entries[f]).1,
        )
    &&& a.uploads == a.entries.len()
    &&& forall|e: int| 0 <= e < a.entries.len() ==> (#[trigger] a.entries[e]).1.sub_img_id == e + 1
}

/// A found first fit indexes a shelf that fits.
pub proof fn lemma_first_fit_some(shelves: Seq<Shelf>, w: int, h: int, max_dim: int, i: int, j: int)
    requires
        0 <= i,
        first_fit_from(shelves, w, h, max_dim, i) == Some(j),
    ensures
        i <= j < shelves.len(),
        shelf_fits(shelves[j], w, h, max_dim),
    decreases shelves.len() - i,
{
    if i < shelves.len() && !shelf_fits(shelves[i], w, h, max_dim) {
        lemma_first_fit_some(shelves, w, h, max_dim, i + 1, j);
    }
}

/// A found first image indexes an image that can take the region.
pub proof fn lemma_first_image_some(
    images: Seq<ImageModel>,
    w: int,
    h: int,
    max_dim: int,
    i: int,
    j: int,
)
    requires
        0 <= i,
        first_image_from(images, w, h, max_dim, i) == Some(j),
    ensures
        i <= j < images.len(),
        image_can_place(images[j], w, h, max_dim),
    decreases images.len() - i,
{
    if i < images.len() && !image_can_place(images[i], w, h, max_dim) {
        lemma_first_image_some(images, w, h, max_dim, i + 1, j);
    }
}

/// One upload step preserves the allocator invariant: the updated image is
/// still a contiguous shelf stack, every old region still sits on its
/// shelf, and the new region shares no pixel with any old one.
pub proof fn lemma_load_preserves_wf(
    m0: AtlasModel,
    m1: AtlasModel,
    m2: AtlasModel,
    key: ImageKey,
    w: int,
    h: int,
    idx: int,
    c: Coords,
)
    requires
        atlas_wf(m0),
        0 <= m0.max_dim <= u32::MAX,
        0 <= w <= m0.max_dim,
        0 <= h <= m0.max_dim,
        forall|j: int| 0 <= j < m0.entries.len() ==> (#[trigger] m0.entries[j]).0 != key,
        m1.max_dim == m0.max_dim,
        m1.entries == m0.entries,
        0 <= idx < m1.images.len(),
        (idx < m0.images.len() && m1.images == m0.images) || (idx == m0.images.len()
            && m1.images == m0.images.push(ImageModel { shelves: Seq::empty(), used_y: 0 })),
        image_can_place(m1.images[idx], w, h, m1.max_dim),
        m2.images.len() == m1.images.len(),
        place_in_image(m1.images[idx], w, h, m1.max_dim) == Some(
            (m2.images[idx], c.x as int, c.y as int),
        ),
        m2.max_dim == m0.max_dim,
        m2.images == m1.images.update(idx, m2.images[idx]),
        m2.entries == m0.entries.push((key, c)),
        m2.uploads == m0.uploads + 1,
        c.img_id == idx + 1,
        c.sub_img_id == m0.entries.len() + 1,
        c.w == w,
        c.h == h,
    ensures
        atlas_wf(m2),
{
    let img0 = m1.images[idx];
    let img2 = m2.images[idx];
    let max = m0.max_dim;
    // The fresh image, when one was pushed, is well formed.
    assert(image_wf(ImageModel { shelves: Seq::empty(), used_y: 0 }, max));
    assert(forall|k: int| 0 <= k < m1.images.len() ==> image_wf(#[trigger] m1.images[k], max));
    assert(image_wf(img0, max));
    // Old entries never point into the fresh image, so their shelf witness
    // carries over to the possibly extended image sequence.
    assert forall|e: int| 0 <= e < m0.entries.len() implies entry_wf(
        (#[trigger] m0.entries[e]).1,
        m1.images,
        max,
    ) by {
        let ce = m0.entries[e].1;
        assert(entry_wf(ce, m0.images, max));
        let j_e = choose|j_e: int|
            0 <= j_e < m0.images[ce.img_id - 1].shelves.len() && region_on_shelf(
                ce,
                #[trigger] m0.images[ce.img_id - 1].shelves[j_e],
            );
        assert(m1.images[ce.img_id - 1] == m0.images[ce.img_id - 1]);
        assert(region_on_shelf(ce, m1.images[ce.img_id - 1].shelves[j_e]));
    }

    match first_fit_from(img0.shelves, w, h, max, 0) {
        Some(j) => {
            lemma_first_fit_some(img0.shelves, w, h, max, 0, j);
            let s = img0.shelves[j];
            let s2 = Shelf { y: s.y, height: s.height, used_x: (s.used_x + w) as u32 };
            assert(place_in_image(img0, w, h, max) == Some(
                (
                    ImageModel { shelves: img0.shelves.update(j, s2), used_y: img0.used_y },
                    s.used_x as int,
                    s.y as int,
                ),
            ));
            assert(img2 == ImageModel {
                shelves: img0.shelves.update(j, s2),
                used_y: img0.used_y,
            });
            assert(img2.shelves == img0.shelves.update(j, s2));
            assert(img2.shelves[j] == s2);
            assert(s2.used_x == s.used_x + w);
            assert(c.x == s.used_x && c.y == s.y);
            assert(image_wf(img2, max));
            // Every old region still sits on its shelf, and misses the new
            // region: same shelf means it ends left of where the new region
            // begins; another shelf means a disjoint horizontal band.
            assert forall|e: int| 0 <= e < m0.entries.len() implies entry_wf(
                (#[trigger] m0.entries[e]).1,
                m2.images,
                max,
            ) && !coords_overlap(m0.entries[e].1, c) by {
                let ce = m0.entries[e].1;
                let j_e = choose|j_e: int|
                    0 <= j_e < m1.images[ce.img_id - 1].shelves.len() && region_on_shelf(
                        ce,
                        #[trigger] m1.images[ce.img_id - 1].shelves[j_e],
                    );
                if ce.img_id - 1 == idx {
                    assert(m2.images[ce.img_id - 1] == img2);
                    if j_e == j {
                        assert(region_on_shelf(ce, m2.images[ce.img_id - 1].shelves[j_e]));
                    } else if j_e < j {
                        lemma_shelf_bands_ordered(img0, max, j_e, j);
                        assert(region_on_shelf(ce, m2.images[ce.img_id - 1].shelves[j_e]));
                    } else {
                        lemma_shelf_bands_ordered(img0, max, j, j_e);
                        assert(region_on_shelf(ce, m2.images[ce.img_id - 1].shelves[j_e]));
                    }
                } else {
                    assert(m2.images[ce.img_id - 1] == m1.images[ce.img_id - 1]);
                    assert(region_on_shelf(ce, m2.images[ce.img_id - 1].shelves[j_e]));
                }
            }
            // The new region sits on the grown shelf.
            assert(m2.images[c.img_id - 1] == img2);
            assert(region_on_shelf(c, m2.images[c.img_id - 1].shelves[j]));
            assert(entry_wf(c, m2.images, max));
        },
        None => {
            assert(img0.used_y + h <= max);
            let j_new = img0.shelves.len() as int;
            assert(img2.shelves == img0.shelves.push(
                Shelf { y: img0.used_y as u32, height: h as u32, used_x: w as u32 },
            ));
            assert(image_wf(img2, max));
            assert forall|e: int| 0 <= e < m0.entries.len() implies entry_wf(
                (#[trigger] m0.entries[e]).1,
                m2.images,
                max,
            ) && !coords_overlap(m0.entries[e].1, c) by {
                let ce = m0.entries[e].1;
                let j_e = choose|j_e: int|
                    0 <= j_e < m1.images[ce.img_id - 1].shelves.len() && region_on_shelf(
                        ce,
                        #[trigger] m1.images[ce.img_id - 1].shelves[j_e],
                    );
                if ce.img_id - 1 == idx {
                    assert(m2.images[ce.img_id - 1] == img2);
                    lemma_shelf_below_used_y(img0, max, j_e);
                    assert(region_on_shelf(ce, m2.images[ce.img_id - 1].shelves[j_e]));
                } else {
                    assert(m2.images[ce.img_id - 1] == m1.images[ce.img_id - 1]);
                    assert(region_on_shelf(ce, m2.images[ce.img_id - 1].shelves[j_e]));
                }
            }
            assert(m2.images[c.img_id - 1] == img2);
            assert(region_on_shelf(c, m2.images[c.img_id - 1].shelves[j_new]));
            assert(entry_wf(c, m2.images, max));
        },
    }
    // Distinct keys and ordinals carry over to the pushed entry.
    assert forall|e: int, f: int| 0 <= e < f < m2.entries.len() implies (
    #[trigger] m2.entries[e]).0 != (#[trigger] m2.entries[f]).0 by {
        if f == m2.entries.len() - 1 {
            assert(m2.entries[e].0 != key);
        }
    }
    assert forall|e: int, f: int| 0 <= e < f < m2.entries.len() implies !coords_overlap(
        (#[trigger] m2.entries[e]).1,
        (#[trigger] m2.entries[f]).1,
    ) by {
        if f < m2.entries.len() - 1 {
            assert(!coords_overlap(m0.entries[e].1, m0.entries[f].1));
        }
    }
}

/// A key just pushed at the end is found when no earlier entry carries it.
pub proof fn lemma_lookup_push(entries: Seq<(ImageKey, Coords)>, key: ImageKey, c: Coords, i: int)
    requires
        0 <= i <= entries.len(),
        forall|j: int| 0 <= j < entries.len() ==> (#[trigger] entries[j]).0 != key,
    ensures
        lookup_from(entries.push((key, c)), key, i) == Some(c),
    decreases entries.len() - i,
{
    if i < entries.len() {
        lemma_lookup_push(entries, key, c, i + 1);
    }
}

/// Loading a key twice is idempotent: the second call returns the same
/// region as the first and changes nothing, so each key is uploaded at most
/// once for the life of the allocator.
pub proof fn lemma_load_idempotent(a: AtlasModel, key: ImageKey, w: int, h: int)
    ensures
        atlas_load(atlas_load(a, key, w, h).1, key, w, h).0 == atlas_load(a, key, w, h).0,
        atlas_load(atlas_load(a, key, w, h).1, key, w, h).1 == atlas_load(a, key, w, h).1,
        atlas_load(a, key, w, h).0 is Ok ==> atlas_load(a, key, w, h).1.uploads <= a.uploads + 1,
        atlas_lookup(a, key) is Some ==> atlas_load(a, key, w, h).1 == a,
        atlas_load(a, key, w, h).0 is Err ==> atlas_load(a, key, w, h).1 == a,
{
    let (r1, a1) = atlas_load(a, key, w, h);
    match atlas_lookup(a, key) {
        Some(_) => {},
        None => {
            lemma_lookup_none(a.entries, key, 0);
            if !(w > a.max_dim || h > a.max_dim) {
                match r1 {
                    Ok(c) => {
                        lemma_lookup_push(a.entries, key, c, 0);
                        match first_image_from(a.images, w, h, a.max_dim, 0) {
                            Some(i) => {
                                lemma_first_image_some(a.images, w, h, a.max_dim, 0, i);
                                assert(place_in_image(a.images[i], w, h, a.max_dim) is Some);
                                assert(a1.entries == a.entries.push((key, c)));
                            },
                            None => {
                                assert(a1.entries == a.entries.push((key, c)));
                            },
                        }
                        assert(atlas_lookup(a1, key) == Some(c));
                    },
                    Err(_) => {},
                }
            }
        },
    }
}

/// A region handed out by a load stays inside the `max_dim` square of its
/// backing image.
pub proof fn lemma_load_coords_bounded(a: AtlasModel, key: ImageKey, w: int, h: int)
    requires
        atlas_wf(a),
        0 <= a.max_dim <= u32::MAX,
        w >= 0,
        h >= 0,
    ensures
        match atlas_load(a, key, w, h).0 {
            Ok(c) => c.x + c.w <= a.max_dim && c.y + c.h <= a.max_dim,
            Err(_) => true,
        },
{
    match atlas_lookup(a, key) {
        Some(c) => {
            lemma_lookup_entry(a.entries, key, 0);
            let e = choose|e: int|
                0 <= e < a.entries.len() && (#[trigger] a.entries[e]).1 == c && a.entries[e].0
                    == key;
            assert(entry_wf(c, a.images, a.max_dim as int));
            let img = a.images[c.img_id - 1];
            let j = choose|j: int|
                0 <= j < img.shelves.len() && region_on_shelf(c, #[trigger] img.shelves[j]);
            lemma_shelf_below_used_y(img, a.max_dim as int, j);
        },
        None => {
            if !(w > a.max_dim || h > a.max_dim) {
                match first_image_from(a.images, w, h, a.max_dim, 0) {
                    Some(i) => {
                        lemma_first_image_some(a.images, w, h, a.max_dim, 0, i);
                        let img = a.images[i];
                        match first_fit_from(img.shelves, w, h, a.max_dim, 0) {
                            Some(j) => {
                                lemma_first_fit_some(img.shelves, w, h, a.max_dim, 0, j);
                                lemma_shelf_below_used_y(img, a.max_dim as int, j);
                            },
                            None => {},
                        }
                    },
                    None => {},
                }
            }
        },
    }
}

/// A cache hit names some stored entry.
pub proof fn lemma_lookup_entry(entries: Seq<(ImageKey, Coords)>, key: ImageKey, i: int)
    requires
        0 <= i,
        lookup_from(entries, key, i) is Some,
    ensures
        exists|e: int|
            i <= e < entries.len() && (#[trigger] entries[e]).1 == lookup_from(
                entries,
                key,
                i,
            ).unwrap() && entries[e].0 == key,
    decreases entries.len() - i,
{
    if i < entries.len() && entries[i].0 != key {
        lemma_lookup_entry(entries, key, i + 1);
    }
}

/// No entry at or after `i` carries `key` when the scan from `i` misses.
pub proof fn lemma_lookup_none(entries: Seq<(ImageKey, Coords)>, key: ImageKey, i: int)
    requires
        0 <= i,
        lookup_from(entries, key, i) is None,
    ensures
        forall|j: int| i <= j < entries.len() ==> (#[trigger] entries[j]).0 != key,
    decreases entries.len() - i,
{
    if i < entries.len() {
        lemma_lookup_none(entries, key, i + 1);
    }
}

/// The region and state that `load_or_get` yields on the model: a cache hit
/// returns the stored region unchanged; an oversized request fails; anything
/// else is placed in the first backing image with room, or in a fresh image.
pub open spec fn atlas_load(a: AtlasModel, key: ImageKey, w: int, h: int) -> (Result<
    Coords,
    AtlasCapacityError,
>, AtlasModel) {
    match atlas_lookup(a, key) {
        Some(c) => (Ok(c), a),
        None => {
            if w > a.max_dim || h > a.max_dim {
                (Err(AtlasCapacityError { width: w as u32, height: h as u32 }), a)
            } else {
                match first_image_from(a.images, w, h, a.max_dim, 0) {
                    Some(i) => {
                        match place_in_image(a.images[i], w, h, a.max_dim) {
                            Some((img2, x, y)) => {
                                let c = Coords {
                                    img_id: (i + 1) as u64,
                                    sub_img_id: (a.entries.len() + 1) as u64,
                                    x: x as u32,
                                    y: y as u32,
                                    w: w as u32,
                                    h: h as u32,
                                };
                                (
                                    Ok(c),
                                    AtlasModel {
                                        max_dim: a.max_dim,
                                        images: a.images.update(i, img2),
                                        entries: a.entries.push((key, c)),
                                        uploads: a.uploads + 1,
                                    },
                                )
                            },
                            None => (Ok(c_unreachable()), a),
                        }
                    },
                    None => {
                        let empty = ImageModel { shelves: Seq::empty(), used_y: 0 };
                        match place_in_image(empty, w, h, a.max_dim) {
                            Some((img2, x, y)) => {
                                let c = Coords {
                                    img_id: (a.images.len() + 1) as u64,
                                    sub_img_id: (a.entries.len() + 1) as u64,
                                    x: x as u32,
                                    y: y as u32,
                                    w: w as u32,
                                    h: h as u32,
                                };
                                (
                                    Ok(c),
                                    AtlasModel {
                                        max_dim: a.max_dim,
                                        images: a.images.push(img2),
                                        entries: a.entries.push((key, c)),
                                        uploads: a.uploads + 1,
                                    },
                                )
                            },
                            None => (Ok(c_unreachable()), a),
                        }
                    },
                }
            }
        },
    }
}

/// A placeholder region for the branches of `atlas_load` that a feasible
/// placement never reaches.
pub open spec fn c_unreachable() -> Coords {
    Coords { img_id: 0, sub_img_id: 0, x: 0, y: 0, w: 0, h: 0 }
}

/// Scans the shelves of `img` for the first that fits a `w` by `h` region.
fn find_shelf(img: &AtlasImage, w: u32, h: u32, max_dim: u32) -> (r: Option<usize>)
    ensures
        match r {
            Some(i) => first_fit_from(img@.shelves, w as int, h as int, max_dim as int, 0) == Some(
                i as int,
            ) && i < img@.shelves.len(),
            None => first_fit_from(img@.shelves, w as int, h as int, max_dim as int, 0) is None,
        },
{
    let n = img.shelves.len();
    let mut i: usize = 0;
    while i < n
        invariant
            n == img@.shelves.len(),
            0 <= i <= n,
            first_fit_from(img@.shelves, w as int, h as int, max_dim as int, 0) == first_fit_from(
                img@.shelves,
                w as int,
                h as int,
                max_dim as int,
                i as int,
            ),
        decreases n - i,
    {
        let s = img.shelves[i];
        if h <= s.height && (s.used_x as u64) + (w as u64) <= (max_dim as u64) {
            return Some(i);
        }
        i = i + 1;
    }
    None
}

/// Whether `img` can take a `w` by `h` region on any shelf or a new one.
fn can_place(img: &AtlasImage, w: u32, h: u32, max_dim: u32) -> (r: bool)
    ensures
        r == image_can_place(img@, w as int, h as int, max_dim as int),
{
    match find_shelf(img, w, h, max_dim) {
        Some(_) => true,
        None => (img.used_y as u64) + (h as u64) <= (max_dim as u64),
    }
}

impl Atlas {
    /// Scans the backing images for the first that can take the region.
    fn find_image(&self, w: u32, h: u32) -> (r: Option<usize>)
        ensures
            match r {
                Some(i) => first_image_from(self@.images, w as int, h as int, self@.max_dim, 0)
                    == Some(i as int) && i < self@.images.len(),
                None => first_image_from(self@.images, w as int, h as int, self@.max_dim, 0)
                    is None,
            },
    {
        let n = self.images.len();
        let mut i: usize = 0;
        while i < n
            invariant
                n == self.images@.len(),
                self@.images.len() == self.images@.len(),
                0 <= i <= n,
                forall|k: int|
                    0 <= k < self.images@.len() ==> #[trigger] self@.images[k] == self.images@[k]@,
                first_image_from(self@.images, w as int, h as int, self@.max_dim, 0)
                    == first_image_from(self@.images, w as int, h as int, self@.max_dim, i as int),
            decreases n - i,
        {
            if can_place(&self.images[i], w, h, self.max_dim) {
                return Some(i);
            }
            i = i + 1;
        }
        None
    }

    /// A new, empty allocator whose backing images are `max_dim` square.
    pub fn new(max_dim: u32) -> (a: Atlas)
        ensures
            atlas_wf(a@),
            a@.max_dim == max_dim,
            a@.images.len() == 0,
            a@.entries.len() == 0,
            a@.uploads == 0,
    {
        let a = Atlas { max_dim, images: Vec::new(), entries: Vec::new(), upload_count: 0 };
        proof {
            assert(a@.images =~= Seq::<ImageModel>::empty());
        }
        a
    }

    /// How many uploads have been performed. A repeated key never adds one.
    pub fn upload_count(&self) -> (c: u64)
        ensures
            c == self@.uploads,
    {
        self.upload_count
    }

    /// Returns the region stored for `key`, or packs a fresh `width` by
    /// `height` region for it. A cache hit changes nothing and performs no
    /// upload; a miss picks the first backing image with room (adding a new
    /// image when none has any), records the entry, and counts one upload.
    /// The call fails exactly when the region is wider or taller than a
    /// backing image; the allocator is then unchanged. `data` is the pixel
    /// payload the caller will hand to the presentation layer alongside the
    /// returned region; its bytes do not influence placement.
    pub fn load_or_get(&mut self, key: ImageKey, data: &Vec<u8>, width: u32, height: u32) -> (r:
        Result<Coords, AtlasCapacityError>)
        requires
            atlas_wf(old(self)@),
        ensures
            atlas_wf(final(self)@),
            r == atlas_load(old(self)@, key, width as int, height as int).0,
            final(self)@ == atlas_load(old(self)@, key, width as int, height as int).1,
    {
        let ghost m0 = self@;
        if let Some(c) = self.get(key) {
            return Ok(c);
        }
        if width > self.max_dim || height > self.max_dim {
            return Err(AtlasCapacityError { width, height });
        }
        proof {
            lemma_lookup_none(m0.entries, key, 0);
        }
        let (img_idx, is_new_image) = match self.find_image(width, height) {
            Some(i) => (i, false),
            None => {
                let i = self.images.len();
                self.images.push(AtlasImage { shelves: Vec::new(), used_y: 0 });
                proof {
                    assert(self@.images =~= m0.images.push(
                        ImageModel { shelves: Seq::empty(), used_y: 0 },
                    ));
                }
                (i, true)
            },
        };
        let ghost m1 = self@;
        let ghost img0 = m1.images[img_idx as int];
        proof {
            if is_new_image {
                assert(img0 =~= ImageModel { shelves: Seq::empty(), used_y: 0 });
            } else {
                lemma_first_image_some(
                    m1.images,
                    width as int,
                    height as int,
                    m1.max_dim,
                    0,
                    img_idx as int,
                );
            }
            assert(image_can_place(img0, width as int, height as int, m1.max_dim));
        }
        // Place the region in image `img_idx`: an existing shelf, or a new
        // shelf below the stack.
        let mut img = self.images.remove(img_idx);
        let (x, y): (u32, u32) = match find_shelf(&img, width, height, self.max_dim) {
            Some(j) => {
                proof {
                    lemma_first_fit_some(
                        img0.shelves,
                        width as int,
                        height as int,
                        m1.max_dim,
                        0,
                        j as int,
                    );
                }
                let s = img.shelves[j];
                img.shelves.set(
                    j,
                    Shelf { y: s.y, height: s.height, used_x: s.used_x + width },
                );
                (s.used_x, s.y)
            },
            None => {
                let sy = img.used_y;
                img.shelves.push(Shelf { y: sy, height, used_x: width });
                img.used_y = sy + height;
                (0, sy)
            },
        };
        self.images.insert(img_idx, img);
        proof {
            assert(place_in_image(img0, width as int, height as int, m1.max_dim) == Some(
                (self@.images[img_idx as int], x as int, y as int),
            ));
            assert(self@.images =~= m1.images.update(
                img_idx as int,
                self@.images[img_idx as int],
            ));
        }
        // Record the cache entry; the sub-region ordinal is fixed up after
        // the push so that the length bound is in evidence.
        let c0 = Coords { img_id: 0, sub_img_id: 0, x, y, w: width, h: height };
        self.entries.push((key, c0));
        let n = self.entries.len();
        let image_total = self.images.len();
        proof {
            assert(img_idx < image_total);
        }
        let img_id: u64 = (img_idx as u64) + 1;
        let c = Coords { img_id, sub_img_id: n as u64, x, y, w: width, h: height };
        self.entries.set(n - 1, (key, c));
        self.upload_count = self.upload_count + 1;
        proof {
            assert(self.entries@ =~= m0.entries.push((key, c)));
            let m2 = self@;
            let spec_out = atlas_load(m0, key, width as int, height as int);
            assert(m2.images =~= spec_out.1.images);
            assert(m2 == spec_out.1);
            lemma_load_preserves_wf(m0, m1, m2, key, width as int, height as int, img_idx as int, c);
        }
        Ok(c)
    }

    /// The region stored for `key`, without uploading anything.
    pub fn get(&self, key: ImageKey) -> (r: Option<Coords>)
        ensures
            r == atlas_lookup(self@, key),
    {
        let n = self.entries.len();
        let mut i: usize = 0;
        while i < n
            invariant
                n == self.entries@.len(),
                0 <= i <= n,
                lookup_from(self.entries@, key, 0) == lookup_from(self.entries@, key, i as int),
            decreases n - i,
        {
            let (k, c) = self.entries[i];
            if k == key {
                return Some(c);
            }
            i = i + 1;
        }
        None
    }
}

} // verus!
