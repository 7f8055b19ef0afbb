//! Decisions of the OpenGL renderer that do not touch the GPU.
use vstd::prelude::*;

verus! {

/// What to do with a request to draw a texture of pixels.
#[derive(Clone, Copy, Debug, PartialEq, Eq, Structural)]
pub enum DrawCheck {
    /// The destination or the texture has no area: nothing is drawn.
    NothingToDraw,
    /// The pixel bytes do not cover the texture: nothing is drawn, and the
    /// renderer warns.
    BufferTooSmall,
    /// The texture can be uploaded and drawn.
    Draw,
}

/// Decides whether a `tex_w` by `tex_h` texture, four bytes per pixel, held
/// in `pixel_len` bytes, can be drawn into a `dest_w` by `dest_h` rectangle.
pub fn check_draw_pixels(
    dest_w: i32,
    dest_h: i32,
    tex_w: i32,
    tex_h: i32,
    pixel_len: usize,
) -> (check: DrawCheck)
    requires
        dest_w > 0 && dest_h > 0 && tex_w > 0 && tex_h > 0 ==> tex_w * tex_h * 4 <= i32::MAX,
    ensures
        check == if dest_w <= 0 || dest_h <= 0 || tex_w <= 0 || tex_h <= 0 {
            DrawCheck::NothingToDraw
        } else if pixel_len < tex_w * tex_h * 4 {
            DrawCheck::BufferTooSmall
        } else {
            DrawCheck::Draw
        },
{
    if dest_w <= 0 || dest_h <= 0 || tex_w <= 0 || tex_h <= 0 {
        return DrawCheck::NothingToDraw;
    }
    let needed = tex_w * tex_h * 4;
    if pixel_len < needed as usize {
        DrawCheck::BufferTooSmall
    } else {
        DrawCheck::Draw
    }
}

/// Among framebuffer configurations with the given sample counts, the index
/// of one with the most samples; the first such on a tie.
pub fn best_config_index(samples: &[u8]) -> (best: usize)
    requires
        samples@.len() > 0,
    ensures
        best < samples@.len(),
        forall|i: int| 0 <= i < samples@.len() ==> samples@[i] <= samples@[best as int],
        forall|i: int| 0 <= i < best ==> samples@[i] < samples@[best as int],
{
    let mut best: usize = 0;
    let mut i: usize = 1;
    while i < samples.len()
        invariant
            samples@.len() > 0,
            1 <= i <= samples@.len(),
            best < i,
            forall|j: int| 0 <= j < i ==> samples@[j] <= samples@[best as int],
            forall|j: int| 0 <= j < best ==> samples@[j] < samples@[best as int],
        decreases samples@.len() - i,
    {
        if samples[i] > samples[best] {
            best = i;
        }
        i = i + 1;
    }
    best
}

} // verus!
