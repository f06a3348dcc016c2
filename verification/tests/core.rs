use basalt::atlas::{Atlas, ImageKey};
use basalt::events::{Hook, HookFire, HookTrigger, MouseButton};
use basalt::interface::Interface;
use basalt::style::{pct_of, Color, Position, PxOrPct, Style};
use basalt::Limits;

fn plain_hook() -> Hook {
    Hook {
        id: 0,
        mouse_press: Vec::new(),
        mouse_scroll: false,
        mouse_move: false,
        mouse_enter: false,
        mouse_leave: false,
        on_focus: false,
        lost_focus: false,
    }
}

#[test]
fn allocate_three_fresh_increasing_ids() {
    let mut itf = Interface::new();
    let ids = itf.new_bins(3);
    assert_eq!(ids, vec![0, 1, 2]);
    let more = itf.new_bins(2);
    assert_eq!(more, vec![3, 4]);
    let one = itf.new_bin();
    assert_eq!(one, 5);
}

#[test]
fn get_bin_finds_registered_ids_only() {
    let mut itf = Interface::new();
    let ids = itf.new_bins(2);
    assert!(itf.get_bin(ids[0]).is_some());
    assert!(itf.get_bin(ids[1]).is_some());
    assert!(itf.get_bin(77).is_none());
}

#[test]
fn resolve_window_anchored_pixels_and_percent() {
    let mut itf = Interface::new();
    let id = itf.new_bin();
    let mut s = Style::default();
    s.pos_from_l = Some(PxOrPct::Px(10));
    s.pos_from_t = Some(PxOrPct::Px(20));
    s.width = Some(PxOrPct::Px(100));
    s.height = Some(PxOrPct::Pct(5000));
    assert!(itf.update_style(id, s));
    let g = itf.resolve(id, 1000, 800).unwrap();
    assert_eq!(g.rect.x, 10);
    assert_eq!(g.rect.y, 20);
    assert_eq!(g.rect.w, 100);
    assert_eq!(g.rect.h, 400);
    assert_eq!(g.z, 1);
}

#[test]
fn resolve_right_anchored_and_margins() {
    let mut itf = Interface::new();
    let id = itf.new_bin();
    let mut s = Style::default();
    s.pos_from_r = Some(PxOrPct::Px(10));
    s.pos_from_t = Some(PxOrPct::Px(0));
    s.width = Some(PxOrPct::Px(100));
    s.height = Some(PxOrPct::Px(50));
    s.margin_l = Some(PxOrPct::Px(5));
    s.hori_offset = Some(PxOrPct::Px(3));
    assert!(itf.update_style(id, s));
    let g = itf.resolve(id, 1000, 800).unwrap();
    assert_eq!(g.rect.x, 890 + 5 + 3);
    assert_eq!(g.rect.w, 100);
}

#[test]
fn resolve_is_deterministic_for_unchanged_styles() {
    let mut itf = Interface::new();
    let a = itf.new_bin();
    let b = itf.new_bin();
    let mut sa = Style::default();
    sa.pos_from_l = Some(PxOrPct::Px(0));
    sa.pos_from_t = Some(PxOrPct::Px(0));
    sa.width = Some(PxOrPct::Px(200));
    sa.height = Some(PxOrPct::Px(200));
    assert!(itf.update_style(a, sa));
    assert!(itf.add_child(a, b));
    let mut sb = Style::default();
    sb.pos_from_l = Some(PxOrPct::Pct(2500));
    sb.pos_from_t = Some(PxOrPct::Px(10));
    sb.width = Some(PxOrPct::Px(30));
    sb.height = Some(PxOrPct::Px(30));
    assert!(itf.update_style(b, sb));
    let first = itf.resolve(b, 640, 480).unwrap();
    let second = itf.resolve(b, 640, 480).unwrap();
    assert_eq!(first, second);
    assert_eq!(first.rect.x, 50);
    assert_eq!(first.rect.y, 10);
    assert_eq!(first.z, 2);
}

#[test]
fn resolve_unmoved_by_unrelated_style_changes() {
    let mut itf = Interface::new();
    let a = itf.new_bin();
    let other = itf.new_bin();
    let mut sa = Style::default();
    sa.pos_from_l = Some(PxOrPct::Px(7));
    sa.pos_from_t = Some(PxOrPct::Px(9));
    sa.width = Some(PxOrPct::Px(50));
    sa.height = Some(PxOrPct::Px(60));
    assert!(itf.update_style(a, sa));
    let before = itf.resolve(a, 640, 480).unwrap();
    let mut so = Style::default();
    so.pos_from_l = Some(PxOrPct::Px(300));
    so.width = Some(PxOrPct::Px(10));
    assert!(itf.update_style(other, so));
    let after = itf.resolve(a, 640, 480).unwrap();
    assert_eq!(before, after);
}

#[test]
fn padding_insets_the_child_base() {
    let mut itf = Interface::new();
    let a = itf.new_bin();
    let b = itf.new_bin();
    let mut sa = Style::default();
    sa.pos_from_l = Some(PxOrPct::Px(0));
    sa.pos_from_t = Some(PxOrPct::Px(0));
    sa.width = Some(PxOrPct::Px(100));
    sa.height = Some(PxOrPct::Px(100));
    sa.padding_l = Some(PxOrPct::Px(10));
    sa.padding_t = Some(PxOrPct::Px(5));
    sa.padding_r = Some(PxOrPct::Px(20));
    assert!(itf.update_style(a, sa));
    assert!(itf.add_child(a, b));
    let mut sb = Style::default();
    sb.pos_from_l = Some(PxOrPct::Px(0));
    sb.pos_from_t = Some(PxOrPct::Px(0));
    sb.width = Some(PxOrPct::Pct(10000));
    sb.height = Some(PxOrPct::Px(10));
    assert!(itf.update_style(b, sb));
    let g = itf.resolve(b, 640, 480).unwrap();
    // The content box starts after the left and top padding and loses
    // the left and right padding from its width.
    assert_eq!((g.rect.x, g.rect.y), (10, 5));
    assert_eq!(g.rect.w, 70);
}

#[test]
fn children_clip_to_parent_unless_overflow_allows() {
    let mut itf = Interface::new();
    let a = itf.new_bin();
    let b = itf.new_bin();
    let mut sa = Style::default();
    sa.pos_from_l = Some(PxOrPct::Px(0));
    sa.pos_from_t = Some(PxOrPct::Px(0));
    sa.width = Some(PxOrPct::Px(100));
    sa.height = Some(PxOrPct::Px(100));
    assert!(itf.update_style(a, sa));
    assert!(itf.add_child(a, b));
    let mut sb = Style::default();
    sb.pos_from_l = Some(PxOrPct::Px(50));
    sb.pos_from_t = Some(PxOrPct::Px(0));
    sb.width = Some(PxOrPct::Px(100));
    sb.height = Some(PxOrPct::Px(10));
    assert!(itf.update_style(b, sb.clone()));
    let g = itf.resolve(b, 640, 480).unwrap();
    assert_eq!((g.rect.x, g.rect.w), (50, 50));
    // A point past the clipped edge is no longer inside the child.
    assert!(itf.get_bin_id_atop(120, 5, 640, 480).is_none());
    // Allowing horizontal overflow restores the full width.
    let mut sa2 = Style::default();
    sa2.pos_from_l = Some(PxOrPct::Px(0));
    sa2.pos_from_t = Some(PxOrPct::Px(0));
    sa2.width = Some(PxOrPct::Px(100));
    sa2.height = Some(PxOrPct::Px(100));
    sa2.overflow_hori = Some(true);
    assert!(itf.update_style(a, sa2));
    let g = itf.resolve(b, 640, 480).unwrap();
    assert_eq!((g.rect.x, g.rect.w), (50, 100));
    assert_eq!(itf.get_bin_id_atop(120, 5, 640, 480), Some(b));
}

#[test]
fn percent_of_missing_parent_resolves_to_zero() {
    let mut itf = Interface::new();
    let id = itf.new_bin();
    let mut s = Style::default();
    s.position = Some(Position::Parent);
    s.pos_from_l = Some(PxOrPct::Px(0));
    s.pos_from_t = Some(PxOrPct::Px(0));
    s.width = Some(PxOrPct::Pct(5000));
    s.height = Some(PxOrPct::Px(10));
    assert!(itf.update_style(id, s));
    let g = itf.resolve(id, 1000, 800).unwrap();
    assert_eq!(g.rect.w, 0);
    assert_eq!(g.rect.h, 10);
}

fn sized_bin(itf: &mut Interface, x: i64, y: i64, w: i64, h: i64, z: Option<i32>) -> u64 {
    let id = itf.new_bin();
    let mut s = Style::default();
    s.pos_from_l = Some(PxOrPct::Px(x));
    s.pos_from_t = Some(PxOrPct::Px(y));
    s.width = Some(PxOrPct::Px(w));
    s.height = Some(PxOrPct::Px(h));
    s.z_index = z;
    assert!(itf.update_style(id, s));
    id
}

#[test]
fn topmost_prefers_higher_z() {
    let mut itf = Interface::new();
    let a = sized_bin(&mut itf, 0, 0, 100, 100, Some(1));
    let b = sized_bin(&mut itf, 0, 0, 100, 100, Some(2));
    assert!(a < b);
    assert_eq!(itf.get_bin_id_atop(50, 50, 1000, 800), Some(b));
    let top = itf.get_bin_atop(50, 50, 1000, 800).unwrap();
    assert_eq!(top.id, b);
}

#[test]
fn topmost_tie_break_is_latest_in_id_order() {
    let mut itf = Interface::new();
    let _a = sized_bin(&mut itf, 0, 0, 100, 100, Some(3));
    let b = sized_bin(&mut itf, 0, 0, 100, 100, Some(3));
    assert_eq!(itf.get_bin_id_atop(50, 50, 1000, 800), Some(b));
}

#[test]
fn pass_through_bins_are_not_hit() {
    let mut itf = Interface::new();
    let a = sized_bin(&mut itf, 0, 0, 100, 100, Some(1));
    let b = sized_bin(&mut itf, 0, 0, 100, 100, Some(2));
    let mut s = Style::default();
    s.pos_from_l = Some(PxOrPct::Px(0));
    s.pos_from_t = Some(PxOrPct::Px(0));
    s.width = Some(PxOrPct::Px(100));
    s.height = Some(PxOrPct::Px(100));
    s.z_index = Some(2);
    s.pass_input = Some(true);
    assert!(itf.update_style(b, s));
    assert_eq!(itf.get_bin_id_atop(50, 50, 1000, 800), Some(a));
    assert!(itf.mouse_inside(50, 50, 1000, 800));
    assert!(!itf.mouse_inside(500, 500, 1000, 800));
}

#[test]
fn hover_sequence_enter_enter_leave_leave() {
    let mut itf = Interface::new();
    let ids = itf.new_bins(2);
    let a = ids[0];
    let b = ids[1];
    let mut sa = Style::default();
    sa.pos_from_l = Some(PxOrPct::Px(0));
    sa.pos_from_t = Some(PxOrPct::Px(0));
    sa.width = Some(PxOrPct::Px(100));
    sa.height = Some(PxOrPct::Px(100));
    assert!(itf.update_style(a, sa));
    assert!(itf.add_child(a, b));
    let mut sb = Style::default();
    sb.pos_from_l = Some(PxOrPct::Px(10));
    sb.pos_from_t = Some(PxOrPct::Px(10));
    sb.width = Some(PxOrPct::Px(30));
    sb.height = Some(PxOrPct::Px(30));
    assert!(itf.update_style(b, sb));
    let mut hook = plain_hook();
    hook.mouse_enter = true;
    hook.mouse_leave = true;
    let ha = itf.add_hook(a, hook.clone()).unwrap();
    let hb = itf.add_hook(b, hook).unwrap();
    let mut log: Vec<(u64, HookTrigger)> = Vec::new();
    for (x, y) in [(200, 200), (50, 50), (20, 20), (200, 200)] {
        for f in itf.on_mouse_move(x, y, 1000, 800) {
            log.push((f.bin_id, f.trigger));
        }
    }
    assert_eq!(
        log,
        vec![
            (a, HookTrigger::MouseEnter),
            (b, HookTrigger::MouseEnter),
            (b, HookTrigger::MouseLeave),
            (a, HookTrigger::MouseLeave),
        ]
    );
    let _ = (ha, hb);
}

#[test]
fn press_moves_focus_and_fires_matching_buttons() {
    let mut itf = Interface::new();
    let a = sized_bin(&mut itf, 0, 0, 100, 100, Some(1));
    let b = sized_bin(&mut itf, 200, 0, 100, 100, Some(1));
    let mut hook = plain_hook();
    hook.on_focus = true;
    hook.lost_focus = true;
    hook.mouse_press = vec![MouseButton::Left];
    let ha = itf.add_hook(a, hook.clone()).unwrap();
    let hb = itf.add_hook(b, hook).unwrap();
    let fires = itf.on_mouse_press(50, 50, 1000, 800, MouseButton::Left);
    let kinds: Vec<(u64, HookTrigger)> = fires.iter().map(|f| (f.bin_id, f.trigger)).collect();
    assert_eq!(
        kinds,
        vec![(a, HookTrigger::Focus), (a, HookTrigger::MousePress)]
    );
    let fires = itf.on_mouse_press(250, 50, 1000, 800, MouseButton::Left);
    let kinds: Vec<(u64, HookTrigger)> = fires.iter().map(|f| (f.bin_id, f.trigger)).collect();
    assert_eq!(
        kinds,
        vec![
            (a, HookTrigger::LostFocus),
            (b, HookTrigger::Focus),
            (b, HookTrigger::MousePress),
        ]
    );
    let fires = itf.on_mouse_press(250, 50, 1000, 800, MouseButton::Right);
    assert!(fires.is_empty());
    let _ = (ha, hb);
}

#[test]
fn scroll_stops_at_innermost_carrier() {
    let mut itf = Interface::new();
    let ids = itf.new_bins(2);
    let a = ids[0];
    let b = ids[1];
    let mut sa = Style::default();
    sa.pos_from_l = Some(PxOrPct::Px(0));
    sa.pos_from_t = Some(PxOrPct::Px(0));
    sa.width = Some(PxOrPct::Px(100));
    sa.height = Some(PxOrPct::Px(100));
    assert!(itf.update_style(a, sa));
    assert!(itf.add_child(a, b));
    let mut sb = Style::default();
    sb.pos_from_l = Some(PxOrPct::Px(10));
    sb.pos_from_t = Some(PxOrPct::Px(10));
    sb.width = Some(PxOrPct::Px(30));
    sb.height = Some(PxOrPct::Px(30));
    assert!(itf.update_style(b, sb));
    let mut hook = plain_hook();
    hook.mouse_scroll = true;
    let ha = itf.add_hook(a, hook).unwrap();
    // Only the ancestor carries a scroll hook: the event bubbles to it.
    let fire = itf.on_mouse_scroll(20, 20, 1000, 800).unwrap();
    assert_eq!(fire.bin_id, a);
    assert_eq!(fire.hook_id, ha);
    assert_eq!(fire.trigger, HookTrigger::MouseScroll);
    // The child now carries one too and consumes the event alone.
    let mut hook = plain_hook();
    hook.mouse_scroll = true;
    let hbs = itf.add_hook(b, hook).unwrap();
    let fire = itf.on_mouse_scroll(20, 20, 1000, 800).unwrap();
    assert_eq!(fire.bin_id, b);
    assert_eq!(fire.hook_id, hbs);
    // Outside everything nothing fires.
    assert!(itf.on_mouse_scroll(500, 500, 1000, 800).is_none());
}

#[test]
fn remove_hook_silences_it() {
    let mut itf = Interface::new();
    let a = sized_bin(&mut itf, 0, 0, 100, 100, None);
    let mut hook = plain_hook();
    hook.mouse_scroll = true;
    let h = itf.add_hook(a, hook).unwrap();
    assert!(itf.on_mouse_scroll(50, 50, 1000, 800).is_some());
    assert!(itf.remove_hook(a, h));
    assert!(!itf.remove_hook(a, h));
    assert!(itf.on_mouse_scroll(50, 50, 1000, 800).is_none());
}

#[test]
fn add_child_rejects_unknown_and_unordered_links() {
    let mut itf = Interface::new();
    let a = itf.new_bin();
    let b = itf.new_bin();
    assert!(!itf.add_child(b, a));
    assert!(!itf.add_child(a, 99));
    assert!(!itf.add_child(99, b));
    assert!(itf.add_child(a, b));
    assert!(!itf.update_style(99, Style::default()));
}

#[test]
fn atlas_load_is_idempotent_per_key() {
    let mut atlas = Atlas::new(100);
    let key = ImageKey::Glyph(12, 65);
    let data = vec![0u8; 400];
    let c1 = atlas.load_or_get(key, &data, 10, 10).unwrap();
    assert_eq!(atlas.upload_count(), 1);
    let c2 = atlas.load_or_get(key, &data, 10, 10).unwrap();
    assert_eq!(atlas.upload_count(), 1);
    assert_eq!(c1, c2);
    assert_eq!(atlas.get(key), Some(c1));
    assert_eq!(c1.img_id, 1);
    assert_eq!((c1.x, c1.y, c1.w, c1.h), (0, 0, 10, 10));
}

#[test]
fn atlas_packs_disjoint_regions_and_new_shelves() {
    let mut atlas = Atlas::new(100);
    let data = vec![0u8; 400];
    let a = atlas
        .load_or_get(ImageKey::Glyph(12, 65), &data, 10, 10)
        .unwrap();
    let b = atlas
        .load_or_get(ImageKey::Glyph(12, 66), &data, 10, 10)
        .unwrap();
    assert_eq!(atlas.upload_count(), 2);
    // Same shelf, side by side.
    assert_eq!((a.x, a.y), (0, 0));
    assert_eq!((b.x, b.y), (10, 0));
    // A taller region opens a new shelf below.
    let tall = vec![0u8; 100 * 4 * 20];
    let c = atlas
        .load_or_get(ImageKey::Glyph(24, 65), &tall, 100, 20)
        .unwrap();
    assert_eq!((c.x, c.y), (0, 10));
    assert_eq!(c.img_id, 1);
}

#[test]
fn atlas_capacity_error_on_oversized_region() {
    let mut atlas = Atlas::new(100);
    let data = vec![0u8; 200 * 10 * 4];
    let err = atlas.load_or_get(ImageKey::Image(1), &data, 200, 10).unwrap_err();
    assert_eq!(err.width, 200);
    assert_eq!(err.height, 10);
    assert_eq!(atlas.upload_count(), 0);
}

#[test]
fn atlas_grows_a_second_image_when_full() {
    let mut atlas = Atlas::new(10);
    let data = vec![0u8; 400];
    let a = atlas.load_or_get(ImageKey::Image(1), &data, 10, 10).unwrap();
    let b = atlas.load_or_get(ImageKey::Image(2), &data, 10, 10).unwrap();
    assert_eq!(a.img_id, 1);
    assert_eq!(b.img_id, 2);
    assert_eq!((b.x, b.y), (0, 0));
}

#[test]
fn pct_of_truncates_toward_zero() {
    assert_eq!(pct_of(200, 5000), 100);
    assert_eq!(pct_of(-200, 5000), -100);
    assert_eq!(pct_of(200, -5000), -100);
    assert_eq!(pct_of(-200, -5000), 100);
    assert_eq!(pct_of(199, 5000), 99);
    assert_eq!(pct_of(-199, 5000), -99);
    assert_eq!(pct_of(0, 5000), 0);
}

#[test]
fn px_or_pct_resolves_against_base() {
    assert_eq!(PxOrPct::from_px(42).as_px(1000), 42);
    assert_eq!(PxOrPct::from_pct(2500).as_px(1000), 250);
}

#[test]
fn color_round_trips_channel_bytes() {
    let c = Color::from_srgba8([1, 2, 3, 4]);
    assert_eq!(c.as_srgba8(), [1, 2, 3, 4]);
}

#[test]
fn limits_hold_device_values() {
    let l = Limits {
        max_image_dimension_2d: 16384,
        max_image_dimension_3d: 2048,
    };
    assert_eq!(l.max_image_dimension_2d, 16384);
    assert_eq!(l.max_image_dimension_3d, 2048);
}

#[test]
fn hook_fire_records_its_key() {
    let f = HookFire {
        bin_id: 3,
        hook_id: 7,
        trigger: HookTrigger::MouseMove,
    };
    assert_eq!(f.bin_id, 3);
    assert_eq!(f.hook_id, 7);
}
