use cocoa_way::render::{get_buffer_pixels, render_surface};

#[test]
fn pixels_of_empty_buffer_are_none() {
    assert_eq!(get_buffer_pixels(&[1, 2, 3, 4], 0, 1, 4), None);
    assert_eq!(get_buffer_pixels(&[1, 2, 3, 4], 1, 0, 4), None);
}

#[test]
fn pixels_of_negative_size_are_empty() {
    assert_eq!(get_buffer_pixels(&[1, 2, 3, 4], -1, 2, 4), Some((-1, 2, vec![])));
}

#[test]
fn pixels_are_packed_row_after_row() {
    // two rows of two pixels, rows 12 bytes apart (4 bytes of padding)
    let src: Vec<u8> = (0..24).collect();
    let (w, h, bytes) = get_buffer_pixels(&src, 2, 2, 12).unwrap();
    assert_eq!((w, h), (2, 2));
    assert_eq!(bytes, vec![0, 1, 2, 3, 4, 5, 6, 7, 12, 13, 14, 15, 16, 17, 18, 19]);
}

#[test]
fn pixels_outside_the_buffer_are_opaque_black() {
    let src: Vec<u8> = vec![9, 8, 7, 6, 5, 4];
    let (_, _, bytes) = get_buffer_pixels(&src, 2, 1, 8).unwrap();
    assert_eq!(bytes, vec![9, 8, 7, 6, 0, 0, 0, 255]);
}

#[test]
fn pixels_before_the_buffer_are_opaque_black() {
    let src: Vec<u8> = vec![1, 2, 3, 4, 5, 6, 7, 8];
    let (_, _, bytes) = get_buffer_pixels(&src, 1, 2, -100).unwrap();
    assert_eq!(bytes, vec![1, 2, 3, 4, 0, 0, 0, 255]);
}

#[test]
fn render_converts_bgra_to_opaque_rgb() {
    let src: Vec<u8> = vec![0x11, 0x22, 0x33, 0x00];
    let mut canvas = vec![0u32; 4];
    render_surface(&src, 1, 1, 4, &mut canvas, 2, 2, 1, 1);
    assert_eq!(canvas, vec![0, 0, 0, 0xFF33_2211]);
}

#[test]
fn render_clips_to_the_canvas() {
    // a 2x2 buffer drawn at (-1, -1) on a 2x2 canvas shows only its last pixel
    let src: Vec<u8> = vec![1, 1, 1, 0, 2, 2, 2, 0, 3, 3, 3, 0, 4, 4, 4, 0];
    let mut canvas = vec![7u32; 4];
    render_surface(&src, 2, 2, 8, &mut canvas, 2, 2, -1, -1);
    assert_eq!(canvas, vec![0xFF04_0404, 7, 7, 7]);
}

#[test]
fn render_stops_a_row_at_the_end_of_the_buffer() {
    let src: Vec<u8> = vec![1, 2, 3, 0, 4, 5];
    let mut canvas = vec![0u32; 2];
    render_surface(&src, 2, 1, 8, &mut canvas, 2, 1, 0, 0);
    assert_eq!(canvas, vec![0xFF03_0201, 0]);
}

#[test]
fn render_keeps_cells_outside_the_storage() {
    let src: Vec<u8> = vec![1, 2, 3, 0];
    let mut canvas = vec![5u32; 2];
    // the canvas claims 4x4 but its storage holds two cells
    render_surface(&src, 1, 1, 4, &mut canvas, 4, 4, 1, 1);
    assert_eq!(canvas, vec![5, 5]);
}

#[test]
fn render_empty_buffer_changes_nothing() {
    let mut canvas = vec![5u32; 2];
    render_surface(&[], 0, 1, 4, &mut canvas, 2, 1, 0, 0);
    assert_eq!(canvas, vec![5, 5]);
}

#[test]
fn render_on_too_wide_canvas_draws_nothing() {
    // a canvas width that does not fit an i32 reads as negative
    let src: Vec<u8> = vec![1, 2, 3, 0];
    let mut canvas = vec![5u32; 2];
    render_surface(&src, 1, 1, 4, &mut canvas, 0x8000_0000, 1, 0, 0);
    assert_eq!(canvas, vec![5, 5]);
}
