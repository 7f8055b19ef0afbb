//! Reading client pixel buffers.
//!
//! A client buffer holds `height` rows of `width` pixels, rows `stride` bytes
//! apart, each pixel four bytes in the order blue, green, red, alpha.
use vstd::prelude::*;
use vstd::arithmetic::div_mod::{lemma_fundamental_div_mod, lemma_fundamental_div_mod_converse};

verus! {

/// Offset of the first byte of source pixel `(x, y)`.
pub open spec fn source_offset(stride: int, x: int, y: int) -> int {
    y * stride + 4 * x
}

/// All four bytes of source pixel `(x, y)` lie in a buffer of `len` bytes.
pub open spec fn source_in_bounds(len: int, stride: int, x: int, y: int) -> bool {
    0 <= source_offset(stride, x, y) && source_offset(stride, x, y) + 4 <= len
}

/// Byte `c` of source pixel `(x, y)`; a pixel that does not lie wholly in the
/// buffer reads as opaque black (`0, 0, 0, 255`).
pub open spec fn source_byte(src: Seq<u8>, stride: int, x: int, y: int, c: int) -> u8 {
    if source_in_bounds(src.len() as int, stride, x, y) {
        src[source_offset(stride, x, y) + c]
    } else if c == 3 {
        255
    } else {
        0
    }
}

/// Index of byte `c` of pixel `(x, y)` in a tightly packed image `width`
/// pixels wide.
pub open spec fn byte_index(width: int, x: int, y: int, c: int) -> int {
    (y * width + x) * 4 + c
}

/// Pixel `(x1, y1)` of a row-major image `width` pixels wide comes before
/// pixel `(x2, y2)`.
proof fn lemma_pixel_before(width: int, x1: int, y1: int, x2: int, y2: int)
    requires
        0 <= x1 < width,
        0 <= x2,
        0 <= y1,
        y1 < y2 || (y1 == y2 && x1 < x2),
    ensures
        y1 * width + x1 < y2 * width + x2,
{
    if y1 < y2 {
        assert(y1 * width + width <= y2 * width) by (nonlinear_arith)
            requires
                y1 < y2,
                width > 0,
        ;
    }
}

/// Copies the pixels of a client buffer into a tightly packed image of
/// `width * height` pixels, four bytes each, row after row. A pixel that does
/// not lie wholly in `src` comes out opaque black. Returns `None` for a buffer
/// with no width or no height.
pub fn get_buffer_pixels(src: &[u8], width: i32, height: i32, stride: i32) -> (pixels: Option<
    (i32, i32, Vec<u8>),
>)
    requires
        width > 0 && height > 0 ==> width * height * 4 <= i32::MAX,
    ensures
        width == 0 || height == 0 ==> pixels is None,
        width != 0 && height != 0 ==> (pixels matches Some((w, h, bytes)) && {
            &&& w == width
            &&& h == height
            &&& bytes@.len() == if width > 0 && height > 0 {
                width * height * 4
            } else {
                0
            }
            &&& forall|x: int, y: int, c: int|
                0 <= x < width && 0 <= y < height && 0 <= c < 4 ==> #[trigger] bytes@[byte_index(
                    width as int,
                    x,
                    y,
                    c,
                )] == source_byte(src@, stride as int, x, y, c)
        }),
{
    if width == 0 || height == 0 {
        return None;
    }
    if width < 0 || height < 0 {
        return Some((width, height, Vec::new()));
    }
    let ghost w = width as int;
    let mut pixels: Vec<u8> = Vec::new();
    let mut y: i32 = 0;
    while y < height
        invariant
            0 < width,
            0 < height,
            w == width,
            width * height * 4 <= i32::MAX,
            0 <= y <= height,
            pixels@.len() == y * w * 4,
            forall|xx: int, yy: int, c: int|
                0 <= xx < width && 0 <= yy < y && 0 <= c < 4 ==> #[trigger] pixels@[byte_index(
                    w,
                    xx,
                    yy,
                    c,
                )] == source_byte(src@, stride as int, xx, yy, c),
        decreases height - y,
    {
        proof {
            assert(y * w * 4 <= height * w * 4) by (nonlinear_arith)
                requires
                    y <= height,
                    w > 0,
            ;
        }
        proof {
            assert(-0x4000_0000_0000_0000 <= y * stride <= 0x4000_0000_0000_0000) by (nonlinear_arith)
                requires
                    0 <= y <= i32::MAX,
                    i32::MIN <= stride <= i32::MAX,
            ;
        }
        let base = y as i64 * stride as i64;
        let mut x: i32 = 0;
        while x < width
            invariant
                0 < width,
                0 < height,
                w == width,
                width * height * 4 <= i32::MAX,
                0 <= y < height,
                0 <= x <= width,
                base == y * stride,
                -0x4000_0000_0000_0000 <= base <= 0x4000_0000_0000_0000,
                pixels@.len() == (y * w + x) * 4,
                forall|xx: int, yy: int, c: int|
                    0 <= xx < width && 0 <= yy && (yy < y || (yy == y && xx < x)) && 0 <= c < 4
                        ==> #[trigger] pixels@[byte_index(w, xx, yy, c)] == source_byte(
                        src@,
                        stride as int,
                        xx,
                        yy,
                        c,
                    ),
            decreases width - x,
        {
            proof {
                assert((y * w + x + 1) * 4 <= height * w * 4) by (nonlinear_arith)
                    requires
                        y < height,
                        x < w,
                        w > 0,
                ;
            }
            let ghost before = pixels@;
            let offset = base + x as i64 * 4;
            if offset >= 0 && (offset as i128) + 4 <= src.len() as i128 {
                let o = offset as usize;
                pixels.push(src[o]);
                pixels.push(src[o + 1]);
                pixels.push(src[o + 2]);
                pixels.push(src[o + 3]);
            } else {
                pixels.push(0);
                pixels.push(0);
                pixels.push(0);
                pixels.push(255);
            }
            proof {
                assert forall|xx: int, yy: int, c: int|
                    0 <= xx < width && 0 <= yy && (yy < y || (yy == y && xx < x + 1)) && 0 <= c
                        < 4 implies #[trigger] pixels@[byte_index(w, xx, yy, c)] == source_byte(
                    src@,
                    stride as int,
                    xx,
                    yy,
                    c,
                ) by {
                    if yy == y && xx == x {
                        assert(byte_index(w, xx, yy, c) == before.len() + c);
                    } else {
                        lemma_pixel_before(w, xx, yy, x as int, y as int);
                        assert(byte_index(w, xx, yy, c) < before.len()) by (nonlinear_arith)
                            requires
                                yy * w + xx < y * w + x,
                                before.len() == (y * w + x) * 4,
                                0 <= c < 4,
                        ;
                        assert(pixels@[byte_index(w, xx, yy, c)] == before[byte_index(w, xx, yy, c)]);
                    }
                }
            }
            x = x + 1;
        }
        proof {
            assert((y * w + w) * 4 == (y + 1) * w * 4) by (nonlinear_arith);
        }
        y = y + 1;
    }
    proof {
        assert(height * w * 4 == width * height * 4) by (nonlinear_arith)
            requires
                w == width,
        ;
    }
    Some((width, height, pixels))
}

/// The opaque colour `0xFFRRGGBB`.
pub open spec fn opaque_color(r: u8, g: u8, b: u8) -> u32 {
    (0xFF00_0000 + r * 0x1_0000 + g * 0x100 + b) as u32
}

/// The colour of source pixel `(x, y)`, made opaque.
pub open spec fn source_color(src: Seq<u8>, stride: int, x: int, y: int) -> u32 {
    let o = source_offset(stride, x, y);
    opaque_color(src[o + 2], src[o + 1], src[o])
}

/// Source pixel `(x, y)` is copied to the canvas: it lies in the buffer,
/// its row does not start before the buffer, and shifted by the offsets it
/// lands inside the canvas (whose sides are read as `i32`) and inside the
/// canvas storage.
pub open spec fn blit_drawn(
    src_len: int,
    width: int,
    height: int,
    stride: int,
    canvas_len: int,
    canvas_width: u32,
    canvas_height: u32,
    x_offset: int,
    y_offset: int,
    x: int,
    y: int,
) -> bool {
    &&& 0 <= x < width
    &&& 0 <= y < height
    &&& 0 <= x_offset + x < (canvas_width as i32)
    &&& 0 <= y_offset + y < (canvas_height as i32)
    &&& 0 <= y * stride
    &&& source_offset(stride, x, y) + 4 <= src_len
    &&& (y_offset + y) * canvas_width + (x_offset + x) < canvas_len
}

/// The value of canvas cell `k` after the buffer is drawn onto `canvas`: the
/// colour of the source pixel that lands on it, or its old value.
pub open spec fn blit_cell(
    src: Seq<u8>,
    width: int,
    height: int,
    stride: int,
    canvas: Seq<u32>,
    canvas_width: u32,
    canvas_height: u32,
    x_offset: int,
    y_offset: int,
    k: int,
) -> u32 {
    if (canvas_width as i32) > 0 {
        let x = k % (canvas_width as int) - x_offset;
        let y = k / (canvas_width as int) - y_offset;
        if blit_drawn(
            src.len() as int,
            width,
            height,
            stride,
            canvas.len() as int,
            canvas_width,
            canvas_height,
            x_offset,
            y_offset,
            x,
            y,
        ) {
            source_color(src, stride, x, y)
        } else {
            canvas[k]
        }
    } else {
        canvas[k]
    }
}

proof fn lemma_pack_color(r: u8, g: u8, b: u8)
    ensures
        0xFF00_0000u32 | ((r as u32) << 16u32) | ((g as u32) << 8u32) | (b as u32) == 0xFF00_0000
            + r * 0x1_0000 + g * 0x100 + b,
{
    assert(0xFF00_0000u32 | ((r as u32) << 16u32) | ((g as u32) << 8u32) | (b as u32) == 0xFF00_0000
        + r * 0x1_0000 + g * 0x100 + b) by (bit_vector);
}

/// Canvas cell `k` once the source pixels before `(x, y)`, in row order,
/// have been drawn.
spec fn blit_progress(
    src: Seq<u8>,
    width: int,
    height: int,
    stride: int,
    canvas: Seq<u32>,
    canvas_width: u32,
    canvas_height: u32,
    x_offset: int,
    y_offset: int,
    k: int,
    x: int,
    y: int,
) -> u32 {
    let cw = canvas_width as int;
    let kx = k % cw - x_offset;
    let ky = k / cw - y_offset;
    if (canvas_width as i32) > 0 && blit_drawn(
        src.len() as int,
        width,
        height,
        stride,
        canvas.len() as int,
        canvas_width,
        canvas_height,
        x_offset,
        y_offset,
        kx,
        ky,
    ) && (ky < y || (ky == y && kx < x)) {
        source_color(src, stride, kx, ky)
    } else {
        canvas[k]
    }
}

/// A source pixel whose four bytes lie in the buffer is copied byte for
/// byte; a pixel with some byte outside the buffer reads as `0, 0, 0, 255`.
pub proof fn lemma_source_byte_copies_pixels(src: Seq<u8>, stride: int, x: int, y: int, c: int)
    requires
        0 <= c < 4,
    ensures
        0 <= y * stride + 4 * x && y * stride + 4 * x + 4 <= src.len() ==> source_byte(
            src,
            stride,
            x,
            y,
            c,
        ) == src[y * stride + 4 * x + c],
        !(0 <= y * stride + 4 * x && y * stride + 4 * x + 4 <= src.len()) ==> source_byte(
            src,
            stride,
            x,
            y,
            c,
        ) == if c == 3 {
            255u8
        } else {
            0u8
        },
{
}

/// The packed image holds byte `c` of pixel `(x, y)` at `4 * (y * width + x) + c`.
pub proof fn lemma_packed_byte_position(width: int, x: int, y: int, c: int)
    ensures
        byte_index(width, x, y, c) == 4 * (y * width + x) + c,
{
}

/// Every source pixel that, shifted by the offsets, lands inside the canvas
/// (rows checked against `canvas_height`, columns against `canvas_width`,
/// both read as `i32`), lies wholly in the buffer with its row starting in
/// the buffer, and falls in the canvas storage, is drawn: its cell holds
/// `0xFF000000 | r << 16 | g << 8 | b` of the pixel.
pub proof fn lemma_render_draws_visible_pixels(
    src: Seq<u8>,
    width: i32,
    height: i32,
    stride: i32,
    canvas: Seq<u32>,
    canvas_width: u32,
    canvas_height: u32,
    x_offset: i32,
    y_offset: i32,
    x: int,
    y: int,
)
    requires
        0 <= x < width,
        0 <= y < height,
        0 <= x_offset + x < (canvas_width as i32),
        0 <= y_offset + y < (canvas_height as i32),
        0 <= y * stride,
        y * stride + 4 * x + 4 <= src.len(),
        (y_offset + y) * canvas_width + (x_offset + x) < canvas.len(),
    ensures
        ({
            let o = y * stride + 4 * x;
            blit_cell(
                src,
                width as int,
                height as int,
                stride as int,
                canvas,
                canvas_width,
                canvas_height,
                x_offset as int,
                y_offset as int,
                (y_offset + y) * canvas_width + (x_offset + x),
            ) == 0xFF00_0000u32 | ((src[o + 2] as u32) << 16u32) | ((src[o + 1] as u32) << 8u32)
                | (src[o] as u32)
        }),
{
    let o = y * stride + 4 * x;
    assert(canvas_width as i32 > 0 ==> canvas_width <= 0x7fff_ffff) by (bit_vector);
    assert(canvas_width <= 0x7fff_ffff ==> (canvas_width as i32) as int == canvas_width as int);
    let k = (y_offset + y) * canvas_width + (x_offset + x);
    lemma_fundamental_div_mod_converse(
        k,
        canvas_width as int,
        y_offset + y,
        x_offset + x,
    );
    lemma_pack_color(src[o + 2], src[o + 1], src[o]);
}

/// A canvas cell that changes is the cell of a source pixel that lands
/// inside the canvas and the storage and lies wholly in the buffer; every
/// other cell keeps its value.
pub proof fn lemma_render_touches_only_landing_cells(
    src: Seq<u8>,
    width: i32,
    height: i32,
    stride: i32,
    canvas: Seq<u32>,
    canvas_width: u32,
    canvas_height: u32,
    x_offset: i32,
    y_offset: i32,
    k: int,
)
    requires
        0 <= k < canvas.len(),
        blit_cell(
            src,
            width as int,
            height as int,
            stride as int,
            canvas,
            canvas_width,
            canvas_height,
            x_offset as int,
            y_offset as int,
            k,
        ) != canvas[k],
    ensures
        exists|x: int, y: int|
            {
                &&& 0 <= x < width
                &&& 0 <= y < height
                &&& 0 <= x_offset + x < (canvas_width as i32)
                &&& 0 <= y_offset + y < (canvas_height as i32)
                &&& 0 <= y * stride
                &&& y * stride + 4 * x + 4 <= src.len()
                &&& #[trigger] ((y_offset + y) * canvas_width + (x_offset + x)) == k
            },
{
    assert(canvas_width as i32 > 0 ==> canvas_width <= 0x7fff_ffff) by (bit_vector);
    let cw = canvas_width as int;
    let x = k % cw - x_offset;
    let y = k / cw - y_offset;
    lemma_fundamental_div_mod(k, cw);
    assert(k == (y_offset + y) * cw + (x_offset + x)) by (nonlinear_arith)
        requires
            k == cw * (k / cw) + (k % cw),
            x == k % cw - x_offset,
            y == k / cw - y_offset,
    ;
    assert((y_offset + y) * canvas_width + (x_offset + x) == k);
}

/// Draws a client buffer onto a canvas of `canvas_width` by `canvas_height`
/// opaque `0xFFRRGGBB` pixels, its top-left corner at
/// `(x_offset, y_offset)`. Pixels that fall outside the canvas or outside the
/// canvas storage are dropped; a row that would start before the buffer is
/// skipped, and a row stops at the first pixel that does not lie wholly in
/// the buffer.
pub fn render_surface(
    src: &[u8],
    width: i32,
    height: i32,
    stride: i32,
    canvas: &mut [u32],
    canvas_width: u32,
    canvas_height: u32,
    x_offset: i32,
    y_offset: i32,
)
    ensures
        final(canvas)@.len() == old(canvas)@.len(),
        forall|k: int|
            0 <= k < old(canvas)@.len() ==> #[trigger] final(canvas)@[k] == blit_cell(
                src@,
                width as int,
                height as int,
                stride as int,
                old(canvas)@,
                canvas_width,
                canvas_height,
                x_offset as int,
                y_offset as int,
                k,
            ),
{
    let ghost old_canvas = canvas@;
    let ghost cwi = canvas_width as int;
    let cw = canvas_width as i32;
    let ch = canvas_height as i32;
    proof {
        assert(canvas_width as i32 > 0 ==> canvas_width <= 0x7fff_ffff) by (bit_vector);
        assert(canvas_height as i32 > 0 ==> canvas_height <= 0x7fff_ffff) by (bit_vector);
        assert(canvas_width <= 0x7fff_ffff ==> cw as int == canvas_width as int);
        assert(canvas_height <= 0x7fff_ffff ==> ch as int == canvas_height as int);
    }
    if width <= 0 || height <= 0 {
        return;
    }
    let mut y: i32 = 0;
    while y < height
        invariant
            canvas@.len() == old_canvas.len(),
            cw == canvas_width as i32,
            ch == canvas_height as i32,
            cwi == canvas_width as int,
            cw > 0 ==> canvas_width <= 0x7fff_ffff && cw as int == cwi,
            ch > 0 ==> canvas_height <= 0x7fff_ffff && ch as int == canvas_height as int,
            0 < width,
            0 <= y <= height,
            forall|k: int|
                0 <= k < old_canvas.len() ==> #[trigger] canvas@[k] == blit_progress(
                    src@,
                    width as int,
                    height as int,
                    stride as int,
                    old_canvas,
                    canvas_width,
                    canvas_height,
                    x_offset as int,
                    y_offset as int,
                    k,
                    0,
                    y as int,
                ),
        decreases height - y,
    {
        let canvas_y = y_offset as i64 + y as i64;
        if canvas_y >= 0 && canvas_y < ch as i64 {
            proof {
                assert(-0x4000_0000_0000_0000 <= y * stride <= 0x4000_0000_0000_0000)
                    by (nonlinear_arith)
                    requires
                        0 <= y <= i32::MAX,
                        i32::MIN <= stride <= i32::MAX,
                ;
                assert(canvas_y * canvas_width <= 0x7fff_ffff * 0xffff_ffff) by (nonlinear_arith)
                    requires
                        0 <= canvas_y <= 0x7fff_ffff,
                        canvas_width <= 0xffff_ffff,
                ;
            }
            let base = y as i64 * stride as i64;
            let dst_base = canvas_y as u64 * canvas_width as u64;
            let mut x: i32 = 0;
            let mut row_ended = false;
            while x < width && !row_ended
                invariant
                    canvas@.len() == old_canvas.len(),
                    cw == canvas_width as i32,
                    ch == canvas_height as i32,
                    cwi == canvas_width as int,
                    cw > 0 ==> canvas_width <= 0x7fff_ffff && cw as int == cwi,
                    ch > 0 ==> canvas_height <= 0x7fff_ffff && ch as int == canvas_height as int,
                    0 <= y < height,
                    0 <= x <= width,
                    canvas_y == y_offset + y,
                    0 <= canvas_y < ch,
                    base == y * stride,
                    -0x4000_0000_0000_0000 <= base <= 0x4000_0000_0000_0000,
                    dst_base == canvas_y * canvas_width,
                    dst_base <= 0x7fff_ffff * 0xffff_ffff,
                    row_ended ==> !(0 <= base && base + 4 * x + 4 <= src@.len()),
                    forall|k: int|
                        0 <= k < old_canvas.len() ==> #[trigger] canvas@[k] == blit_progress(
                            src@,
                            width as int,
                            height as int,
                            stride as int,
                            old_canvas,
                            canvas_width,
                            canvas_height,
                            x_offset as int,
                            y_offset as int,
                            k,
                            x as int,
                            y as int,
                        ),
                decreases width - x + if row_ended {
                    0int
                } else {
                    1int
                },
            {
                let canvas_x = x_offset as i64 + x as i64;
                if canvas_x >= 0 && canvas_x < cw as i64 {
                    let offset = base + x as i64 * 4;
                    if base < 0 || (offset as i128) + 4 > src.len() as i128 {
                        row_ended = true;
                    } else {
                        let o = offset as usize;
                        let b = src[o];
                        let g = src[o + 1];
                        let r = src[o + 2];
                        let color = 0xFF00_0000u32 | ((r as u32) << 16u32) | ((g as u32) << 8u32)
                            | (b as u32);
                        proof {
                            lemma_pack_color(r, g, b);
                        }
                        let dst = dst_base + canvas_x as u64;
                        let ghost before = canvas@;
                        if dst < canvas.len() as u64 {
                            canvas[dst as usize] = color;
                        }
                        proof {
                            lemma_fundamental_div_mod_converse(
                                dst as int,
                                cwi,
                                canvas_y as int,
                                canvas_x as int,
                            );
                            assert forall|k: int| 0 <= k < old_canvas.len() implies #[trigger] canvas@[k]
                                == blit_progress(
                                src@,
                                width as int,
                                height as int,
                                stride as int,
                                old_canvas,
                                canvas_width,
                                canvas_height,
                                x_offset as int,
                                y_offset as int,
                                k,
                                x + 1,
                                y as int,
                            ) by {
                                if k == dst {
                                    assert(k % cwi - x_offset == x);
                                    assert(k / cwi - y_offset == y);
                                }
                                if k != dst {
                                    lemma_fundamental_div_mod(k, cwi);
                                    if k / cwi - y_offset == y && k % cwi - x_offset == x {
                                        assert(k == (k / cwi) * cwi + k % cwi) by (nonlinear_arith)
                                            requires
                                                k == cwi * (k / cwi) + (k % cwi),
                                        ;
                                        assert(false);
                                    }
                                    assert(canvas@[k] == before[k]);
                                }
                            }
                        }
                    }
                }
                if !row_ended {
                    x = x + 1;
                }
            }
            proof {
                assert forall|k: int| 0 <= k < old_canvas.len() implies #[trigger] canvas@[k]
                    == blit_progress(
                    src@,
                    width as int,
                    height as int,
                    stride as int,
                    old_canvas,
                    canvas_width,
                    canvas_height,
                    x_offset as int,
                    y_offset as int,
                    k,
                    0,
                    y + 1,
                ) by {
                    let kx = k % cwi - x_offset;
                    let ky = k / cwi - y_offset;
                    if ky == y && kx >= x && row_ended && kx < width {
                        assert(4 * x <= 4 * kx);
                    }
                }
            }
        }
        y = y + 1;
    }
    proof {
        assert forall|k: int| 0 <= k < old_canvas.len() implies #[trigger] canvas@[k] == blit_cell(
            src@,
            width as int,
            height as int,
            stride as int,
            old_canvas,
            canvas_width,
            canvas_height,
            x_offset as int,
            y_offset as int,
            k,
        ) by {}
    }
}

} // verus!
