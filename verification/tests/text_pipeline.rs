use basalt::atlas::Atlas;
use basalt::dual_buffer::{ItfDualBuffer, TextRun};
use basalt::interface::Interface;
use basalt::style::{Color, PxOrPct, Style, TextAlign, WrapTy};
use basalt::text::{
    div2, line_metrics, render_text, wrap_words, GlyphInput, GlyphMetrics, ShapedGlyph,
    VertBatch, WordExtent,
};
use basalt::text_render::{
    ceil64, create_basalt_text, floor64, BstGlyph, BstGlyphBitmapCache,
};
use basalt::vertex::{ItfVertInfo, VERT_TY_GLYPH};

fn glyph(codepoint: u32, advance: i64, bearing_x: i64, bearing_y: i64, w: u32, h: u32) -> GlyphInput {
    GlyphInput {
        shaped: ShapedGlyph {
            codepoint,
            x_offset: 0,
            y_offset: 0,
            x_advance: advance,
            y_advance: 0,
        },
        metrics: GlyphMetrics {
            width: (w as i64) * 64,
            height: (h as i64) * 64,
            hori_bearing_x: bearing_x,
            hori_bearing_y: bearing_y,
        },
        bitmap_w: w,
        bitmap_h: h,
        bitmap: vec![0u8; (w * h * 4) as usize],
    }
}

fn space(advance: i64) -> GlyphInput {
    GlyphInput {
        shaped: ShapedGlyph {
            codepoint: 32,
            x_offset: 0,
            y_offset: 0,
            x_advance: advance,
            y_advance: 0,
        },
        metrics: GlyphMetrics {
            width: 0,
            height: 0,
            hori_bearing_x: 0,
            hori_bearing_y: 0,
        },
        bitmap_w: 0,
        bitmap_h: 0,
        bitmap: Vec::new(),
    }
}

fn white() -> Color {
    Color {
        r: 255,
        g: 255,
        b: 255,
        a: 255,
    }
}

#[test]
fn fixed_point_rounding_helpers() {
    assert_eq!(floor64(130), 2);
    assert_eq!(ceil64(130), 3);
    assert_eq!(floor64(128), 2);
    assert_eq!(ceil64(128), 2);
    assert_eq!(floor64(-65), -2);
    assert_eq!(ceil64(-65), -1);
    assert_eq!(div2(7), 3);
    assert_eq!(div2(-7), -3);
}

#[test]
fn line_metrics_formula() {
    let t_m = GlyphMetrics {
        width: 0,
        height: 0,
        hori_bearing_x: 0,
        hori_bearing_y: 40,
    };
    let g_m = GlyphMetrics {
        width: 0,
        height: 30,
        hori_bearing_x: 0,
        hori_bearing_y: 10,
    };
    let pos = ShapedGlyph {
        codepoint: 0,
        x_offset: 0,
        y_offset: 0,
        x_advance: 0,
        y_advance: 0,
    };
    let (start_y, line_height) = line_metrics(t_m, g_m, pos, pos, 12);
    // top = -40, bottom = 20, interline padding = ceil(12 / 6) px = 128.
    assert_eq!(start_y, 40);
    assert_eq!(line_height, 60 + 128);
}

#[test]
fn wrap_boundary_at_first_exceeding_word() {
    let ext = vec![
        WordExtent { min_x: 0, max_x: 50 },
        WordExtent { min_x: 60, max_x: 110 },
        WordExtent { min_x: 120, max_x: 170 },
    ];
    // Width 120: the cumulative extent first exceeds at word 2.
    let lines = wrap_words(&ext, 120);
    assert_eq!(lines, vec![(0, 2), (2, 3)]);
    // Width 100: it first exceeds at word 1.
    let lines = wrap_words(&ext, 100);
    assert_eq!(lines, vec![(0, 1), (1, 2), (2, 3)]);
    // Width large enough: a single line.
    let lines = wrap_words(&ext, 1000);
    assert_eq!(lines, vec![(0, 3)]);
}

#[test]
fn oversized_first_word_stays_alone() {
    let ext = vec![
        WordExtent { min_x: 0, max_x: 500 },
        WordExtent { min_x: 510, max_x: 560 },
    ];
    let lines = wrap_words(&ext, 100);
    assert_eq!(lines, vec![(0, 1), (1, 2)]);
}

#[test]
fn render_single_glyph_quad() {
    let mut atlas = Atlas::new(64);
    let mut g = glyph(65, 448, 128, 320, 1, 1);
    g.metrics.width = 384;
    g.metrics.height = 448;
    let lines = vec![vec![g]];
    let batches = render_text(
        &mut atlas,
        &lines,
        12,
        white(),
        WrapTy::NoWrap,
        TextAlign::Left,
        320,
        0,
    )
    .unwrap();
    assert_eq!(batches.len(), 1);
    let b = &batches[0];
    assert_eq!(b.img_id, 1);
    assert_eq!(b.verts.len(), 6);
    // Pen starts at (0, 320); the quad's top-left corner sits at
    // (bearing_x, start_y - bearing_y) and spans the glyph's metrics.
    let v_tr = b.verts[0];
    let v_tl = b.verts[1];
    let v_bl = b.verts[2];
    let v_br = b.verts[5];
    assert_eq!((v_tl.position_x, v_tl.position_y), (128, 0));
    assert_eq!((v_tr.position_x, v_tr.position_y), (512, 0));
    assert_eq!((v_bl.position_x, v_bl.position_y), (128, 448));
    assert_eq!((v_br.position_x, v_br.position_y), (512, 448));
    assert_eq!((v_tl.coord_u, v_tl.coord_v), (0, 0));
    assert_eq!((v_br.coord_u, v_br.coord_v), (1, 1));
    assert_eq!(v_tl.ty, VERT_TY_GLYPH);
    assert_eq!(v_tl.color, white());
    assert_eq!(atlas.upload_count(), 1);
}

#[test]
fn render_shares_regions_between_repeated_codepoints() {
    let mut atlas = Atlas::new(64);
    let lines = vec![vec![glyph(65, 448, 0, 0, 2, 2), glyph(65, 448, 0, 0, 2, 2)]];
    let batches = render_text(
        &mut atlas,
        &lines,
        12,
        white(),
        WrapTy::NoWrap,
        TextAlign::Left,
        0,
        0,
    )
    .unwrap();
    // One upload, one batch, both quads in it.
    assert_eq!(atlas.upload_count(), 1);
    assert_eq!(batches.len(), 1);
    assert_eq!(batches[0].verts.len(), 12);
}

#[test]
fn render_wraps_second_word_to_next_line() {
    let mut atlas = Atlas::new(64);
    let a = glyph(65, 448, 0, 0, 7, 1);
    let lines = vec![vec![a, glyph(66, 448, 0, 0, 7, 1), space(448), glyph(66, 448, 0, 0, 7, 1)]];
    // Words: [A, B] spanning x 0..896 and [B] at x 1344..1792 in 26.6
    // units. With width 1000 the second word exceeds and wraps.
    let batches = render_text(
        &mut atlas,
        &lines,
        12,
        white(),
        WrapTy::Normal(1000, 0),
        TextAlign::Left,
        0,
        100,
    )
    .unwrap();
    assert_eq!(batches.len(), 1);
    let verts = &batches[0].verts;
    assert_eq!(verts.len(), 18);
    // Line zero is left-aligned at its own start, unshifted vertically.
    assert_eq!(verts[1].position_x, 0);
    assert_eq!(verts[1].position_y, 0);
    // The wrapped word moves back to the line start and down one line.
    assert_eq!(verts[13].position_x, 0);
    assert_eq!(verts[13].position_y, 100);
}

#[test]
fn render_centers_slack() {
    let mut atlas = Atlas::new(64);
    let a = glyph(65, 448, 0, 0, 7, 1);
    let lines = vec![vec![a]];
    // One word spanning 0..448 centered in width 1000: offset 276.
    let batches = render_text(
        &mut atlas,
        &lines,
        12,
        white(),
        WrapTy::Normal(1000, 0),
        TextAlign::Center,
        0,
        100,
    )
    .unwrap();
    assert_eq!(batches[0].verts[1].position_x, 276);
}

#[test]
fn render_right_aligns_to_width() {
    let mut atlas = Atlas::new(64);
    let a = glyph(65, 448, 0, 0, 7, 1);
    let lines = vec![vec![a]];
    let batches = render_text(
        &mut atlas,
        &lines,
        12,
        white(),
        WrapTy::Normal(1000, 0),
        TextAlign::Right,
        0,
        100,
    )
    .unwrap();
    assert_eq!(batches[0].verts[1].position_x, 552);
}

#[test]
fn render_capacity_error_is_typed_and_atlas_kept() {
    let mut atlas = Atlas::new(4);
    let ok = glyph(65, 448, 0, 0, 2, 2);
    let big = glyph(66, 448, 0, 0, 9, 9);
    let lines = vec![vec![ok, big]];
    let err = match render_text(
        &mut atlas,
        &lines,
        12,
        white(),
        WrapTy::NoWrap,
        TextAlign::Left,
        0,
        0,
    ) {
        Ok(_) => panic!("capacity failure expected"),
        Err(e) => e,
    };
    assert_eq!(err.src, basalt::text::BstTextErrorSrc::Atlas);
    assert_eq!(err.ty, basalt::text::BstTextErrorTy::CapacityExceeded);
    // The region cached before the failure stays valid.
    assert_eq!(atlas.upload_count(), 1);
}

#[test]
fn shift_x_wrap_emits_nothing() {
    let mut atlas = Atlas::new(64);
    let lines = vec![vec![glyph(65, 448, 0, 0, 2, 2)]];
    let batches = render_text(
        &mut atlas,
        &lines,
        12,
        white(),
        WrapTy::ShiftX(100),
        TextAlign::Left,
        0,
        0,
    )
    .unwrap();
    assert!(batches.is_empty());
    // The glyph was still cached on the way.
    assert_eq!(atlas.upload_count(), 1);
}

#[test]
fn dual_buffer_snapshot_is_one_complete_generation() {
    let mut buf = ItfDualBuffer::new();
    let (_, gen0, redraw0) = buf.snapshot(false);
    assert_eq!(gen0, 0);
    assert!(!redraw0);
    let batch = VertBatch {
        img_id: 0,
        verts: vec![ItfVertInfo::default(); 6],
    };
    buf.publish(vec![batch]);
    let (batches, gen1, redraw1) = buf.snapshot(false);
    assert_eq!(gen1, 1);
    assert!(redraw1);
    assert_eq!(batches.len(), 1);
    assert_eq!(batches[0].verts.len(), 6);
    // Nothing published since: no redraw needed, same generation intact.
    let (batches, gen2, redraw2) = buf.snapshot(false);
    assert_eq!(gen2, 1);
    assert!(!redraw2);
    assert_eq!(batches[0].verts.len(), 6);
    // A resize forces a redraw of the same complete generation.
    let (_, _, redraw3) = buf.snapshot(true);
    assert!(redraw3);
}

#[test]
fn dual_buffer_update_walks_visible_bins() {
    let mut itf = Interface::new();
    let id = itf.new_bin();
    let mut s = Style::default();
    s.pos_from_l = Some(PxOrPct::Px(10));
    s.pos_from_t = Some(PxOrPct::Px(10));
    s.width = Some(PxOrPct::Px(20));
    s.height = Some(PxOrPct::Px(20));
    s.back_color = Some(white());
    assert!(itf.update_style(id, s));
    let hidden = itf.new_bin();
    let mut sh = Style::default();
    sh.back_color = Some(white());
    sh.hidden = Some(true);
    assert!(itf.update_style(hidden, sh));
    let mut buf = ItfDualBuffer::new();
    let mut atlas = Atlas::new(64);
    let runs: Vec<TextRun> = Vec::new();
    buf.update(&itf, &mut atlas, &runs, 640, 480).unwrap();
    let (batches, generation, _) = buf.snapshot(false);
    assert_eq!(generation, 1);
    // Only the visible bin's solid quad, under the untextured image id.
    assert_eq!(batches.len(), 1);
    assert_eq!(batches[0].img_id, 0);
    assert_eq!(batches[0].verts.len(), 6);
    assert_eq!(batches[0].verts[1].position_x, 10);
    assert_eq!(batches[0].verts[1].position_y, 10);
    assert_eq!(batches[0].verts[1].position_z, 1);
}

#[test]
fn create_basalt_text_failure_keeps_earlier_entries() {
    let mut itf = Interface::new();
    let mut cache = BstGlyphBitmapCache::new();
    let mut atlas = Atlas::new(4);
    let glyphs = vec![
        (BstGlyph { codepoint: 65, x: 0, y: 0 }, glyph(65, 448, 0, 0, 2, 2)),
        (BstGlyph { codepoint: 66, x: 448, y: 0 }, glyph(66, 448, 0, 0, 9, 9)),
    ];
    let r = create_basalt_text(&mut itf, &mut cache, &mut atlas, 12, &glyphs, 1280, -320);
    assert!(r.is_err());
    // The entries made before the failing glyph are kept.
    assert_eq!(atlas.upload_count(), 1);
    assert!(cache.get(12, 65).is_some());
    assert!(cache.get(12, 66).is_none());
    // The container and the first glyph's bin are built; the second
    // glyph's bin stays as allocated, unattached.
    let container = itf.get_bin(0).unwrap();
    assert_eq!(container.style.pos_from_l, Some(PxOrPct::Px(0)));
    let first = itf.get_bin(1).unwrap();
    assert_eq!(first.parent, Some(0));
    assert!(first.style.back_image_atlas.is_some());
    let second = itf.get_bin(2).unwrap();
    assert_eq!(second.parent, None);
    assert!(second.style.back_image_atlas.is_none());
}

#[test]
fn scene_walk_places_text_bin_glyphs() {
    let mut itf = Interface::new();
    let id = itf.new_bin();
    let mut s = Style::default();
    s.pos_from_l = Some(PxOrPct::Px(10));
    s.pos_from_t = Some(PxOrPct::Px(10));
    s.width = Some(PxOrPct::Px(200));
    s.height = Some(PxOrPct::Px(50));
    s.text = Some(String::from("A"));
    s.text_color = Some(white());
    assert!(itf.update_style(id, s));
    let mut g = glyph(65, 448, 128, 320, 1, 1);
    g.metrics.width = 384;
    g.metrics.height = 448;
    let runs = vec![TextRun {
        bin_id: id,
        size: 12,
        start_y: 320,
        line_height: 800,
        lines: vec![vec![g]],
    }];
    let mut atlas = Atlas::new(64);
    let mut buf = ItfDualBuffer::new();
    buf.update(&itf, &mut atlas, &runs, 640, 480).unwrap();
    let (batches, _, _) = buf.snapshot(false);
    // The bin draws nothing itself; only its glyph quad batch appears,
    // placed at the bin's corner: the quad's 26.6 top-left (128, 0)
    // floors to (2, 0) and lands at (12, 10), at the bin's depth.
    assert_eq!(batches.len(), 1);
    assert_eq!(batches[0].img_id, 1);
    assert_eq!(batches[0].verts.len(), 6);
    let tl = batches[0].verts[1];
    assert_eq!((tl.position_x, tl.position_y, tl.position_z), (12, 10, 1));
    assert_eq!(tl.ty, VERT_TY_GLYPH);
    assert_eq!(atlas.upload_count(), 1);
}

#[test]
fn scene_walk_without_run_draws_no_text() {
    let mut itf = Interface::new();
    let id = itf.new_bin();
    let mut s = Style::default();
    s.width = Some(PxOrPct::Px(100));
    s.height = Some(PxOrPct::Px(100));
    s.text = Some(String::from("A"));
    assert!(itf.update_style(id, s));
    let mut atlas = Atlas::new(64);
    let runs: Vec<TextRun> = Vec::new();
    let mut buf = ItfDualBuffer::new();
    buf.update(&itf, &mut atlas, &runs, 640, 480).unwrap();
    let (batches, _, _) = buf.snapshot(false);
    assert!(batches.is_empty());
    assert_eq!(atlas.upload_count(), 0);
}

#[test]
fn scene_walk_text_capacity_error_keeps_buffer() {
    let mut itf = Interface::new();
    let id = itf.new_bin();
    let mut s = Style::default();
    s.width = Some(PxOrPct::Px(100));
    s.height = Some(PxOrPct::Px(100));
    s.text = Some(String::from("A"));
    assert!(itf.update_style(id, s));
    let runs = vec![TextRun {
        bin_id: id,
        size: 12,
        start_y: 0,
        line_height: 100,
        lines: vec![vec![glyph(65, 448, 0, 0, 9, 9)]],
    }];
    let mut atlas = Atlas::new(4);
    let mut buf = ItfDualBuffer::new();
    assert!(buf.update(&itf, &mut atlas, &runs, 640, 480).is_err());
    // The published buffer is untouched by the failed cycle.
    let (_, generation, redraw) = buf.snapshot(false);
    assert_eq!(generation, 0);
    assert!(!redraw);
}

#[test]
fn glyph_cache_rasterizes_once_per_key() {
    let mut cache = BstGlyphBitmapCache::new();
    let mut atlas = Atlas::new(64);
    let g = glyph(65, 448, 64, 128, 2, 3);
    assert!(cache.get(12, 65).is_none());
    let e1 = cache.bitmap_for_glyph(&mut atlas, 12, &g).unwrap();
    assert_eq!(atlas.upload_count(), 1);
    let e2 = cache.bitmap_for_glyph(&mut atlas, 12, &g).unwrap();
    assert_eq!(atlas.upload_count(), 1);
    assert_eq!(e1, e2);
    assert_eq!(cache.get(12, 65), Some(e1));
    assert_eq!(e1.bearing_x, 64);
    assert_eq!(e1.bearing_y, 128);
    assert_eq!(e1.advance_x, 448);
}

#[test]
fn create_basalt_text_builds_container_and_glyph_bins() {
    let mut itf = Interface::new();
    let mut cache = BstGlyphBitmapCache::new();
    let mut atlas = Atlas::new(64);
    let glyphs = vec![(
        BstGlyph {
            codepoint: 65,
            x: 640,
            y: 320,
        },
        glyph(65, 448, 64, 128, 2, 3),
    )];
    let text = create_basalt_text(&mut itf, &mut cache, &mut atlas, 12, &glyphs, 1280, -320)
        .unwrap();
    assert_eq!(text.container, 0);
    assert_eq!(text.glyph_data.len(), 1);
    assert_eq!(text.glyph_data[0].bin, 1);
    assert_eq!(text.glyph_data[0].glyph.codepoint, 65);
    let container = itf.get_bin(text.container).unwrap();
    assert_eq!(container.style.height, Some(PxOrPct::Px(25)));
    assert_eq!(container.style.pos_from_l, Some(PxOrPct::Px(0)));
    let child = itf.get_bin(text.glyph_data[0].bin).unwrap();
    assert_eq!(child.parent, Some(text.container));
    // x + bearing_x = 704 floors to 11 px; y + bearing_y = 448 ceils to 7.
    assert_eq!(child.style.pos_from_l, Some(PxOrPct::Px(11)));
    assert_eq!(child.style.pos_from_t, Some(PxOrPct::Px(7)));
    assert_eq!(child.style.width, Some(PxOrPct::Px(2)));
    assert_eq!(child.style.height, Some(PxOrPct::Px(3)));
    assert!(child.style.back_image_atlas.is_some());
}
