use cocoa_way::gl_renderer::{best_config_index, check_draw_pixels, DrawCheck};

#[test]
fn draw_without_area_draws_nothing() {
    assert_eq!(check_draw_pixels(0, 10, 1, 1, 4), DrawCheck::NothingToDraw);
    assert_eq!(check_draw_pixels(10, -1, 1, 1, 4), DrawCheck::NothingToDraw);
    assert_eq!(check_draw_pixels(10, 10, 0, 1, 4), DrawCheck::NothingToDraw);
    assert_eq!(check_draw_pixels(10, 10, 1, -3, 4), DrawCheck::NothingToDraw);
}

#[test]
fn draw_needs_four_bytes_per_texel() {
    assert_eq!(check_draw_pixels(10, 10, 2, 3, 23), DrawCheck::BufferTooSmall);
    assert_eq!(check_draw_pixels(10, 10, 2, 3, 24), DrawCheck::Draw);
    assert_eq!(check_draw_pixels(10, 10, 2, 3, 100), DrawCheck::Draw);
}

#[test]
fn best_config_has_most_samples_first_on_tie() {
    assert_eq!(best_config_index(&[0]), 0);
    assert_eq!(best_config_index(&[0, 4, 2, 4]), 1);
    assert_eq!(best_config_index(&[8, 4, 8]), 0);
    assert_eq!(best_config_index(&[1, 2, 3]), 2);
}
