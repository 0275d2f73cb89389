use hyprlauncher::geometry::Rect;
use hyprlauncher::layout::{preview_width, LauncherLayout};

#[test]
fn preview_width_matches_float_rounding() {
    for w in 0..=200_000i32 {
        let expected = ((w as f32) * 0.45).round() as i32;
        assert_eq!(preview_width(w), expected, "width {w}");
    }
    let mut w: i64 = 200_001;
    while w <= i32::MAX as i64 {
        let v = w as i32;
        assert_eq!(preview_width(v), ((v as f32) * 0.45).round() as i32, "width {v}");
        w = w * 3 / 2 + 7;
    }
    assert_eq!(preview_width(i32::MAX), ((i32::MAX as f32) * 0.45).round() as i32);
}

#[test]
fn layout_of_a_full_hd_surface() {
    let l = LauncherLayout::new(1920, 1080, 760, 420, 0);
    assert_eq!(l.panel, Rect::new(580, 330, 760, 420));
    assert_eq!(l.preview, Rect::new(581, 331, 342, 418));
    assert_eq!(l.search, Rect::new(941, 348, 381, 40));
    assert_eq!(l.pins, Rect::new(941, 396, 381, 0));
    assert_eq!(l.list, Rect::new(941, 396, 381, 336));
    assert_eq!(l.visible_rows(), 6);
    assert_eq!(l.row_rect(1), Rect::new(941, 448, 381, 44));
    assert_eq!(l.search_clear_rect(), Rect::new(1290, 358, 20, 20));
}

#[test]
fn layout_reserves_the_pinned_strip() {
    let l = LauncherLayout::new(1920, 1080, 760, 420, 3);
    assert_eq!(l.pins_label, Rect::new(941, 396, 381, 14));
    assert_eq!(l.pins, Rect::new(941, 416, 381, 40));
    assert_eq!(l.list, Rect::new(941, 464, 381, 268));
    assert_eq!(l.visible_rows(), 5);
    assert_eq!(l.pin_rect(2), Rect::new(1095, 416, 69, 40));
}

#[test]
fn small_surfaces_keep_the_minimum_panel() {
    let l = LauncherLayout::new(300, 200, 760, 420, 0);
    assert_eq!(l.panel, Rect::new(-30, -20, 360, 240));
    let l = LauncherLayout::new(0, 0, 0, 0, 0);
    assert_eq!(l.panel.w, 360);
    assert_eq!(l.panel.h, 240);
}

#[test]
fn hit_testing_finds_the_row_and_tile_under_the_point() {
    let l = LauncherLayout::new(1920, 1080, 760, 420, 0);
    assert_eq!(l.row_at(950, 450, 10), Some(1));
    assert_eq!(l.row_at(941, 396, 10), Some(0));
    // The gap between two rows belongs to neither.
    assert_eq!(l.row_at(950, 493, 10), None);
    // Only rows that show something can be hit.
    assert_eq!(l.row_at(950, 450, 1), None);
    assert_eq!(l.row_at(940, 450, 10), None);

    let l = LauncherLayout::new(1920, 1080, 760, 420, 3);
    assert_eq!(l.pin_at(1100, 420, 5), Some(2));
    assert_eq!(l.pin_at(1100, 420, 2), None);
    assert_eq!(l.pin_at(1164, 420, 5), None);
    assert_eq!(l.pin_at(941, 416, 5), Some(0));
    let without = LauncherLayout::new(1920, 1080, 760, 420, 0);
    assert_eq!(without.pin_at(941, 396, 5), None);
}

#[test]
fn rectangles_include_their_top_left_edges_only() {
    let r = Rect::new(10, 20, 5, 5);
    assert!(r.contains(10, 20));
    assert!(r.contains(14, 24));
    assert!(!r.contains(15, 24));
    assert!(!r.contains(14, 25));
    assert_eq!(r.inset(2), Rect::new(12, 22, 1, 1));
    assert_eq!(r.inset(-1), Rect::new(9, 19, 7, 7));
}

#[test]
fn the_pinned_strip_moves_only_the_list() {
    let without = LauncherLayout::new(1920, 1080, 760, 420, 0);
    let with = LauncherLayout::new(1920, 1080, 760, 420, 1);
    assert_eq!(without.panel, with.panel);
    assert_eq!(without.preview, with.preview);
    assert_eq!(without.search, with.search);
    assert_eq!(without.pins.h, 0);
    assert_eq!(without.pins_label.h, 0);
    assert_eq!(with.pins_label.y, without.list.y);
    assert_eq!(with.list.y, without.list.y + 68);
    assert_eq!(with.list.h, without.list.h - 68);
    assert_eq!(with.list.y + with.list.h, without.list.y + without.list.h);
}
