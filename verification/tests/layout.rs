use cocoa_way::layout::{row_fits, Layout, Point, Size, SizeRequest, Tile};

fn layout_with(ids: &[u64]) -> Layout {
    let mut layout = Layout::new(1000, 800);
    for id in ids {
        layout.add_tile(*id);
    }
    layout
}

#[test]
fn new_layout_is_empty_with_default_spacing() {
    let layout = Layout::new(1920, 1080);
    assert!(layout.tiles.is_empty());
    assert_eq!(layout.focused_idx, None);
    assert_eq!(layout.view_size, Size { w: 1920, h: 1080 });
    assert_eq!(layout.gap, 10);
    assert_eq!(layout.padding, 10);
}

#[test]
fn default_layout_has_no_spacing() {
    let layout = Layout::default();
    assert!(layout.tiles.is_empty());
    assert_eq!(layout.focused_idx, None);
    assert_eq!(layout.view_size, Size { w: 0, h: 0 });
    assert_eq!(layout.gap, 0);
    assert_eq!(layout.padding, 0);
}

#[test]
fn tile_new_is_unfocused_with_thin_border() {
    let tile = Tile::new(7, Point { x: 1, y: 2 }, Size { w: 3, h: 4 });
    assert_eq!(tile.toplevel, 7);
    assert!(!tile.is_focused);
    assert_eq!(tile.border_width, 2);
    assert_eq!(tile.surface_id(), 7);
    assert_eq!(tile.bounds(), (Point { x: 1, y: 2 }, Size { w: 3, h: 4 }));
    assert_eq!(tile.request_size(), SizeRequest { surface: 7, size: Size { w: 3, h: 4 } });
}

#[test]
fn contains_point_includes_top_left_excludes_bottom_right() {
    let tile = Tile::new(1, Point { x: 10, y: 20 }, Size { w: 100, h: 50 });
    assert!(tile.contains_point(10, 20));
    assert!(tile.contains_point(109, 69));
    assert!(!tile.contains_point(110, 20));
    assert!(!tile.contains_point(10, 70));
    assert!(!tile.contains_point(9, 20));
    assert!(!tile.contains_point(10, 19));
}

#[test]
fn contains_point_near_the_end_of_the_range() {
    let tile = Tile::new(1, Point { x: i32::MAX - 5, y: 0 }, Size { w: 100, h: 100 });
    assert!(tile.contains_point(i32::MAX, 0));
}

#[test]
fn single_tile_fills_the_padded_view() {
    let mut layout = Layout::new(1000, 800);
    let requests = layout.add_tile(1);
    assert_eq!(layout.tiles.len(), 1);
    assert_eq!(layout.tiles[0].position, Point { x: 10, y: 10 });
    assert_eq!(layout.tiles[0].size, Size { w: 980, h: 780 });
    assert!(layout.tiles[0].is_focused);
    assert_eq!(layout.focused_idx, Some(0));
    assert_eq!(requests, vec![SizeRequest { surface: 1, size: Size { w: 980, h: 780 } }]);
}

#[test]
fn two_tiles_share_the_width() {
    let mut layout = layout_with(&[1]);
    let requests = layout.add_tile(2);
    // (1000 - 2 * 10 - 10) / 2 = 485
    assert_eq!(layout.tiles[0].size, Size { w: 485, h: 780 });
    assert_eq!(layout.tiles[1].size, Size { w: 485, h: 780 });
    assert_eq!(layout.tiles[0].position, Point { x: 10, y: 10 });
    assert_eq!(layout.tiles[1].position, Point { x: 505, y: 10 });
    assert_eq!(layout.focused_idx, Some(1));
    assert!(!layout.tiles[0].is_focused);
    assert!(layout.tiles[1].is_focused);
    assert_eq!(
        requests,
        vec![
            SizeRequest { surface: 1, size: Size { w: 485, h: 780 } },
            SizeRequest { surface: 2, size: Size { w: 485, h: 780 } },
        ]
    );
}

#[test]
fn three_tiles_round_the_width_down() {
    let layout = layout_with(&[1, 2, 3]);
    // (1000 - 20 - 20) / 3 = 320
    assert_eq!(layout.tiles[0].size.w, 320);
    assert_eq!(layout.tiles[1].position.x, 340);
    assert_eq!(layout.tiles[2].position.x, 670);
}

#[test]
fn tiny_view_gives_tiles_of_at_least_100() {
    let mut layout = Layout::new(50, 30);
    layout.add_tile(1);
    layout.add_tile(2);
    assert_eq!(layout.tiles[0].size, Size { w: 100, h: 100 });
    assert_eq!(layout.tiles[1].position.x, 120);
}

#[test]
fn negative_width_share_rounds_toward_zero() {
    let mut layout = Layout::new(10, 500);
    layout.add_tile(1);
    layout.add_tile(2);
    // (10 - 20 - 10) / 2 = -10, raised to 100
    assert_eq!(layout.tiles[0].size.w, 100);
}

#[test]
fn relayout_of_empty_layout_does_nothing() {
    let mut layout = Layout::new(100, 100);
    let requests = layout.relayout();
    assert!(requests.is_empty());
    assert!(layout.tiles.is_empty());
}

#[test]
fn relayout_marks_only_the_focused_tile() {
    let mut layout = layout_with(&[1, 2, 3]);
    layout.focused_idx = Some(0);
    layout.relayout();
    assert!(layout.tiles[0].is_focused);
    assert!(!layout.tiles[1].is_focused);
    assert!(!layout.tiles[2].is_focused);
}

#[test]
fn relayout_twice_is_relayout_once() {
    let mut layout = layout_with(&[1, 2, 3]);
    let before = layout.tiles.clone();
    let requests = layout.relayout();
    assert_eq!(layout.tiles, before);
    assert_eq!(requests.len(), 3);
}

#[test]
fn tiles_stand_side_by_side_without_overlap() {
    let layout = layout_with(&[1, 2, 3, 4]);
    for i in 0..3 {
        let a = layout.tiles[i];
        let b = layout.tiles[i + 1];
        assert_eq!(b.position.x, a.position.x + a.size.w + layout.gap);
        assert!(a.position.x + a.size.w <= b.position.x);
        assert_eq!(a.size, b.size);
        assert_eq!(a.position.y, layout.padding);
    }
}

#[test]
fn set_view_size_rearranges() {
    let mut layout = layout_with(&[1, 2]);
    let requests = layout.set_view_size(500, 400);
    assert_eq!(layout.view_size, Size { w: 500, h: 400 });
    // (500 - 20 - 10) / 2 = 235
    assert_eq!(layout.tiles[0].size, Size { w: 235, h: 380 });
    assert_eq!(layout.tiles[1].position.x, 255);
    assert_eq!(requests.len(), 2);
}

#[test]
fn remove_tile_rearranges_and_keeps_focus_on_a_tile() {
    let mut layout = layout_with(&[1, 2, 3]);
    assert_eq!(layout.focused_idx, Some(2));
    let requests = layout.remove_tile(&3);
    assert_eq!(layout.tiles.iter().map(|t| t.toplevel).collect::<Vec<_>>(), vec![1, 2]);
    assert_eq!(layout.focused_idx, Some(1));
    assert!(layout.tiles[1].is_focused);
    assert_eq!(layout.tiles[0].size.w, 485);
    assert_eq!(requests.len(), 2);
}

#[test]
fn remove_tile_before_focus_keeps_focus_index() {
    let mut layout = layout_with(&[1, 2, 3]);
    layout.focused_idx = Some(1);
    layout.remove_tile(&1);
    assert_eq!(layout.focused_idx, Some(1));
    assert_eq!(layout.tiles[1].toplevel, 3);
}

#[test]
fn remove_last_tile_drops_focus() {
    let mut layout = layout_with(&[1]);
    let requests = layout.remove_tile(&1);
    assert!(layout.tiles.is_empty());
    assert_eq!(layout.focused_idx, None);
    assert!(requests.is_empty());
}

#[test]
fn remove_unknown_surface_changes_nothing() {
    let mut layout = layout_with(&[1, 2]);
    let before = layout.tiles.clone();
    let requests = layout.remove_tile(&9);
    assert_eq!(layout.tiles, before);
    assert_eq!(layout.focused_idx, Some(1));
    assert!(requests.is_empty());
}

#[test]
fn remove_takes_the_first_tile_of_a_surface() {
    let mut layout = layout_with(&[5, 6, 5]);
    layout.remove_tile(&5);
    assert_eq!(layout.tiles.iter().map(|t| t.toplevel).collect::<Vec<_>>(), vec![6, 5]);
}

#[test]
fn add_then_remove_restores_the_tiles() {
    let mut layout = layout_with(&[1, 2]);
    let before: Vec<(u64, Point, Size)> = layout.tiles.iter().map(|t| (t.toplevel, t.position, t.size)).collect();
    layout.add_tile(3);
    layout.remove_tile(&3);
    let after: Vec<(u64, Point, Size)> = layout.tiles.iter().map(|t| (t.toplevel, t.position, t.size)).collect();
    assert_eq!(after, before);
    assert_eq!(layout.focused_idx, Some(1));
}

#[test]
fn added_tile_is_found_and_focused() {
    let mut layout = layout_with(&[1, 2]);
    layout.add_tile(3);
    let found = layout.tile_for_surface(&3).unwrap();
    assert_eq!(found.toplevel, 3);
    assert!(found.is_focused);
    assert_eq!(layout.focused_tile().unwrap().toplevel, 3);
    assert!(layout.tile_for_surface(&4).is_none());
}

#[test]
fn focused_tile_with_dangling_focus_is_none() {
    let mut layout = layout_with(&[1]);
    layout.focused_idx = Some(5);
    assert!(layout.focused_tile().is_none());
    layout.focused_idx = None;
    assert!(layout.focused_tile().is_none());
}

#[test]
fn focus_next_wraps_around() {
    let mut layout = layout_with(&[1, 2, 3]);
    assert_eq!(layout.focused_idx, Some(2));
    layout.focus_next();
    assert_eq!(layout.focused_idx, Some(0));
    layout.focus_next();
    assert_eq!(layout.focused_idx, Some(1));
    // the tiles' focus marks wait for the next relayout
    assert!(layout.tiles[2].is_focused);
}

#[test]
fn focus_prev_wraps_around() {
    let mut layout = layout_with(&[1, 2, 3]);
    layout.focused_idx = Some(0);
    layout.focus_prev();
    assert_eq!(layout.focused_idx, Some(2));
    layout.focus_prev();
    assert_eq!(layout.focused_idx, Some(1));
}

#[test]
fn focus_moves_from_nothing() {
    let mut layout = layout_with(&[1, 2, 3]);
    layout.focused_idx = None;
    layout.focus_next();
    assert_eq!(layout.focused_idx, Some(0));
    layout.focused_idx = None;
    layout.focus_prev();
    assert_eq!(layout.focused_idx, Some(2));
}

#[test]
fn focus_on_empty_layout_stays() {
    let mut layout = Layout::new(100, 100);
    layout.focus_next();
    assert_eq!(layout.focused_idx, None);
    layout.focus_prev();
    assert_eq!(layout.focused_idx, None);
    layout.focused_idx = Some(3);
    layout.focus_next();
    assert_eq!(layout.focused_idx, Some(3));
}

#[test]
fn focus_next_then_prev_returns() {
    let mut layout = layout_with(&[1, 2, 3, 4]);
    for start in 0..4 {
        layout.focused_idx = Some(start);
        layout.focus_next();
        layout.focus_prev();
        assert_eq!(layout.focused_idx, Some(start));
        layout.focus_prev();
        layout.focus_next();
        assert_eq!(layout.focused_idx, Some(start));
    }
}

#[test]
fn focus_at_picks_the_tile_under_the_point() {
    let mut layout = layout_with(&[1, 2]);
    let tile = layout.focus_at(600, 100).copied();
    assert_eq!(tile.map(|t| t.toplevel), Some(2));
    assert_eq!(layout.focused_idx, Some(1));
    let tile = layout.focus_at(20, 100).copied();
    assert_eq!(tile.map(|t| t.toplevel), Some(1));
    assert_eq!(layout.focused_idx, Some(0));
}

#[test]
fn focus_at_in_a_gap_changes_nothing() {
    let mut layout = layout_with(&[1, 2]);
    // the gap between the tiles runs from 495 to 504
    assert!(layout.focus_at(500, 100).is_none());
    assert_eq!(layout.focused_idx, Some(1));
    assert!(layout.focus_at(5, 5).is_none());
}

#[test]
fn row_fits_ordinary_views() {
    assert!(row_fits(Size { w: 1000, h: 800 }, 10, 10, 0));
    assert!(row_fits(Size { w: 1000, h: 800 }, 10, 10, 2));
    assert!(row_fits(Size { w: i32::MAX, h: 800 }, 10, 10, 1));
}

#[test]
fn row_fits_rejects_overflowing_arithmetic() {
    // twice the padding overflows
    assert!(!row_fits(Size { w: 1000, h: 800 }, i32::MAX, 10, 1));
    // the width left after negative padding overflows
    assert!(!row_fits(Size { w: i32::MAX, h: 800 }, -1, 10, 1));
    // the gaps between three tiles overflow
    assert!(!row_fits(Size { w: 1000, h: 800 }, 10, 1 << 30, 3));
    // the last slot lies beyond the i32 range
    assert!(!row_fits(Size { w: i32::MAX, h: 800 }, 10, 1000, 2));
    // more tiles than an i32 counts
    assert!(!row_fits(Size { w: 1000, h: 800 }, 10, 10, i32::MAX as usize + 1));
}

#[test]
fn focus_next_visits_every_tile_once() {
    let mut layout = layout_with(&[1, 2, 3, 4, 5]);
    layout.focused_idx = Some(3);
    let mut seen = Vec::new();
    for _ in 0..5 {
        layout.focus_next();
        seen.push(layout.focused_idx.unwrap());
    }
    assert_eq!(seen, vec![4, 0, 1, 2, 3]);
}

#[test]
fn more_tiles_are_never_wider() {
    let mut widths = Vec::new();
    let mut layout = Layout::new(1000, 800);
    for id in 0..8 {
        layout.add_tile(id);
        widths.push(layout.tiles[0].size.w);
        assert_eq!(layout.tiles[0].size.h, 780);
    }
    for pair in widths.windows(2) {
        assert!(pair[1] <= pair[0]);
    }
}

#[test]
fn adding_focuses_only_the_new_tile_even_from_a_dangling_focus() {
    let mut layout = layout_with(&[1, 2]);
    layout.focused_idx = Some(40);
    layout.add_tile(3);
    assert_eq!(layout.focused_idx, Some(2));
    assert_eq!(layout.tiles.iter().filter(|t| t.is_focused).count(), 1);
    assert!(layout.tiles[2].is_focused);
}

#[test]
fn removing_repairs_a_dangling_focus() {
    let mut layout = layout_with(&[1, 2, 3]);
    layout.focused_idx = Some(40);
    layout.remove_tile(&2);
    assert_eq!(layout.focused_idx, Some(1));
    assert!(layout.tile_for_surface(&2).is_none());
}
