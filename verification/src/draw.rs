//! Filling rectangles of an RGBA8 frame buffer.
//!
//! A frame is a sequence of bytes, four to a pixel in the order red, green,
//! blue, alpha, with the pixels laid out row by row.

use crate::color::Rgb;
use crate::coords::{GridCoords, PixelCoords, PIXELS_PER_CELL};
use vstd::arithmetic::div_mod::{lemma_fundamental_div_mod, lemma_fundamental_div_mod_converse};
use vstd::prelude::*;
use vstd::set_lib::lemma_set_disjoint_lens;

verus! {

/// The column of the pixel that byte `i` belongs to, in a frame that is
/// `buffer_width` pixels wide.
pub open spec fn pixel_x(i: int, buffer_width: int) -> int {
    (i / 4) % buffer_width
}

/// The row of the pixel that byte `i` belongs to, in a frame that is
/// `buffer_width` pixels wide.
pub open spec fn pixel_y(i: int, buffer_width: int) -> int {
    (i / 4) / buffer_width
}

/// Whether byte `i` belongs to a pixel of the rectangle that is `w` pixels
/// wide and `h` pixels high and has its top-left corner at `origin`.
pub open spec fn in_rect(i: int, buffer_width: int, origin: PixelCoords, w: int, h: int) -> bool {
    &&& buffer_width > 0
    &&& origin.x <= pixel_x(i, buffer_width) < origin.x + w
    &&& origin.y <= pixel_y(i, buffer_width) < origin.y + h
}

/// The frame that results from filling a rectangle with an opaque colour:
/// every byte of a pixel inside the rectangle holds its channel of the
/// colour, every other byte is as before.
pub open spec fn filled(
    frame: Seq<u8>,
    buffer_width: int,
    origin: PixelCoords,
    w: int,
    h: int,
    rgb: Rgb,
) -> Seq<u8> {
    Seq::new(
        frame.len(),
        |i: int|
            if in_rect(i, buffer_width, origin, w, h) {
                rgb.channel(i % 4)
            } else {
                frame[i]
            },
    )
}

/// Whether the rectangle lies within a frame of `len` bytes that is
/// `buffer_width` pixels wide.
pub open spec fn rect_fits(len: int, buffer_width: int, origin: PixelCoords, w: int, h: int) -> bool {
    &&& origin.x + w <= buffer_width
    &&& (origin.y + h) * buffer_width * 4 <= len
}

/// The bytes of the pixel in column `x` of row `y` are the four that start at
/// `(y * buffer_width + x) * 4`, and no other byte belongs to that pixel.
pub proof fn lemma_bytes_of_pixel(i: int, buffer_width: int, x: int, y: int)
    requires
        0 <= x < buffer_width,
    ensures
        (pixel_x(i, buffer_width) == x && pixel_y(i, buffer_width) == y) <==> ((y * buffer_width
            + x) * 4 <= i < (y * buffer_width + x) * 4 + 4),
{
    let p = i / 4;
    lemma_fundamental_div_mod(p, buffer_width);
    if p == y * buffer_width + x {
        lemma_fundamental_div_mod_converse(p, buffer_width, y, x);
    }
    if p % buffer_width == x && p / buffer_width == y {
        assert(buffer_width * (p / buffer_width) == y * buffer_width) by (nonlinear_arith)
            requires
                p / buffer_width == y,
        ;
    }
}

/// Filling a rectangle changes the four bytes of each of its pixels to the
/// colour with full opacity, and leaves the bytes of every other pixel of the
/// frame as they were.
pub proof fn lemma_filled_pixel(
    frame: Seq<u8>,
    buffer_width: int,
    origin: PixelCoords,
    w: int,
    h: int,
    rgb: Rgb,
    x: int,
    y: int,
    k: int,
)
    requires
        0 <= x < buffer_width,
        0 <= y,
        0 <= k < 4,
        (y * buffer_width + x) * 4 + k < frame.len(),
    ensures
        (origin.x <= x < origin.x + w && origin.y <= y < origin.y + h) ==> filled(
            frame,
            buffer_width,
            origin,
            w,
            h,
            rgb,
        )[(y * buffer_width + x) * 4 + k] == rgb.channel(k),
        !(origin.x <= x < origin.x + w && origin.y <= y < origin.y + h) ==> filled(
            frame,
            buffer_width,
            origin,
            w,
            h,
            rgb,
        )[(y * buffer_width + x) * 4 + k] == frame[(y * buffer_width + x) * 4 + k],
{
    let i = (y * buffer_width + x) * 4 + k;
    lemma_bytes_of_pixel(i, buffer_width, x, y);
    assert(y * buffer_width >= 0) by (nonlinear_arith)
        requires
            y >= 0,
            buffer_width > 0,
    ;
}

/// The pixels of the rectangle, each named by its position in the frame
/// counted row by row: the pixel in column `x` of row `y` is `y *
/// buffer_width + x`. Byte `i` is inside the rectangle exactly when pixel
/// `i / 4` is in this set.
pub open spec fn rect_pixels(buffer_width: int, origin: PixelCoords, w: int, h: int) -> Set<int> {
    Set::new(|p: int| in_rect(4 * p, buffer_width, origin, w, h))
}

/// The pixels of the rectangle that lie in row `y`.
spec fn row_pixels(buffer_width: int, origin: PixelCoords, w: int, y: int) -> Set<int> {
    Set::new(
        |p: int|
            origin.x <= p % buffer_width < origin.x + w && p / buffer_width == y,
    )
}

/// One row of a rectangle that does not reach past the right edge of the
/// frame holds exactly `w` pixels.
proof fn lemma_row_pixel_count(buffer_width: int, origin: PixelCoords, w: nat, y: int)
    requires
        origin.x + w <= buffer_width,
    ensures
        row_pixels(buffer_width, origin, w as int, y).finite(),
        row_pixels(buffer_width, origin, w as int, y).len() == w,
    decreases w,
{
    if w == 0 {
        assert(row_pixels(buffer_width, origin, 0, y) =~= Set::<int>::empty());
    } else {
        lemma_row_pixel_count(buffer_width, origin, (w - 1) as nat, y);
        let x = origin.x + w - 1;
        let last = y * buffer_width + x;
        let shorter = row_pixels(buffer_width, origin, w - 1, y);
        assert forall|p: int|
            row_pixels(buffer_width, origin, w as int, y).contains(p) <==> shorter.insert(
                last,
            ).contains(p) by {
            lemma_bytes_of_pixel(4 * p, buffer_width, x, y);
        }
        assert(row_pixels(buffer_width, origin, w as int, y) =~= shorter.insert(last));
        lemma_bytes_of_pixel(4 * last, buffer_width, x, y);
        assert(!shorter.contains(last));
    }
}

/// A rectangle that does not reach past the right edge of the frame holds
/// exactly `w * h` pixels, so filling it writes that many.
pub proof fn lemma_rect_pixel_count(buffer_width: int, origin: PixelCoords, w: nat, h: nat)
    requires
        origin.x + w <= buffer_width,
    ensures
        rect_pixels(buffer_width, origin, w as int, h as int).finite(),
        rect_pixels(buffer_width, origin, w as int, h as int).len() == w * h,
        forall|i: int| #[trigger]
            in_rect(i, buffer_width, origin, w as int, h as int) <==> rect_pixels(
                buffer_width,
                origin,
                w as int,
                h as int,
            ).contains(i / 4),
    decreases h,
{
    if w == 0 || h == 0 {
        assert(rect_pixels(buffer_width, origin, w as int, h as int) =~= Set::<int>::empty());
        assert(w * h == 0) by (nonlinear_arith)
            requires
                w == 0 || h == 0,
        ;
    } else {
        lemma_rect_pixel_count(buffer_width, origin, w, (h - 1) as nat);
        lemma_row_pixel_count(buffer_width, origin, w, origin.y + h - 1);
        let above = rect_pixels(buffer_width, origin, w as int, h - 1);
        let row = row_pixels(buffer_width, origin, w as int, origin.y + h - 1);
        assert(rect_pixels(buffer_width, origin, w as int, h as int) =~= above + row);
        assert(above.disjoint(row));
        lemma_set_disjoint_lens(above, row);
        assert(w * h == w * (h - 1) + w) by (nonlinear_arith);
    }
}

/// Whether byte `i` has been written once the first `rows` rows of the
/// rectangle are complete and the first `cols` pixels of the next row.
spec fn painted(i: int, buffer_width: int, origin: PixelCoords, w: int, rows: int, cols: int) -> bool {
    let px = pixel_x(i, buffer_width);
    let py = pixel_y(i, buffer_width);
    origin.x <= px && ((origin.y <= py < origin.y + rows && px < origin.x + w) || (py == origin.y
        + rows && px < origin.x + cols))
}

/// Fills the rectangle that is `w` pixels wide and `h` pixels high and has
/// its top-left corner at `coords` with the colour `rgb`, fully opaque.
pub fn fill_rect(frame: &mut [u8], buffer_width: usize, coords: PixelCoords, w: usize, h: usize, rgb: Rgb)
    requires
        rect_fits(old(frame)@.len() as int, buffer_width as int, coords, w as int, h as int),
    ensures
        final(frame)@.len() == old(frame)@.len(),
        final(frame)@ == filled(old(frame)@, buffer_width as int, coords, w as int, h as int, rgb),
{
    let ghost before = frame@;
    let ghost bw = buffer_width as int;
    let len: usize = frame.len();
    if w == 0 || h == 0 {
        assert(frame@ =~= filled(before, bw, coords, w as int, h as int, rgb));
        return ;
    }
    assert(coords.y + h <= len) by (nonlinear_arith)
        requires
            (coords.y + h) * bw * 4 <= len,
            bw >= 1,
    ;
    let y_end: usize = coords.y + h;
    let x_end: usize = coords.x + w;
    let mut y: usize = coords.y;
    while y < y_end
        invariant
            coords.y <= y <= y_end,
            y_end == coords.y + h,
            x_end == coords.x + w,
            x_end <= buffer_width,
            w > 0,
            bw == buffer_width,
            y_end * bw * 4 <= len,
            frame@.len() == before.len() == len,
            forall|i: int|
                0 <= i < before.len() ==> #[trigger] frame@[i] == (if painted(
                    i,
                    bw,
                    coords,
                    w as int,
                    y - coords.y,
                    0,
                ) {
                    rgb.channel(i % 4)
                } else {
                    before[i]
                }),
        decreases y_end - y,
    {
        let mut x: usize = coords.x;
        while x < x_end
            invariant
                coords.y <= y < y_end,
                coords.x <= x <= x_end,
                x_end == coords.x + w,
                x_end <= buffer_width,
                bw == buffer_width,
                y_end * bw * 4 <= len,
                frame@.len() == before.len() == len,
                forall|i: int|
                    0 <= i < before.len() ==> #[trigger] frame@[i] == (if painted(
                        i,
                        bw,
                        coords,
                        w as int,
                        y - coords.y,
                        x - coords.x,
                    ) {
                        rgb.channel(i % 4)
                    } else {
                        before[i]
                    }),
            decreases x_end - x,
        {
            assert((y * bw + x) * 4 + 4 <= y_end * bw * 4 && y * bw >= 0) by (nonlinear_arith)
                requires
                    0 <= y < y_end,
                    0 <= x < bw,
            ;
            let idx: usize = (y * buffer_width + x) * 4;
            let ghost prev = frame@;
            frame[idx] = rgb.0;
            frame[idx + 1] = rgb.1;
            frame[idx + 2] = rgb.2;
            frame[idx + 3] = 0xFF;
            proof {
                assert forall|i: int| 0 <= i < before.len() implies #[trigger] frame@[i] == (
                if painted(i, bw, coords, w as int, y - coords.y, x + 1 - coords.x) {
                    rgb.channel(i % 4)
                } else {
                    before[i]
                }) by {
                    lemma_bytes_of_pixel(i, bw, x as int, y as int);
                    assert(prev[i] == (if painted(i, bw, coords, w as int, y - coords.y, x - coords.x) {
                        rgb.channel(i % 4)
                    } else {
                        before[i]
                    }));
                }
            }
            x += 1;
        }
        y += 1;
    }
    assert(frame@ =~= filled(before, bw, coords, w as int, h as int, rgb));
}

/// Fills the square of the cell at `coords` with the colour `rgb`, fully
/// opaque.
pub fn fill_cell(frame: &mut [u8], buffer_width: usize, coords: GridCoords, rgb: Rgb)
    requires
        (coords.x + 1) * PIXELS_PER_CELL <= buffer_width,
        (coords.y + 1) * PIXELS_PER_CELL * buffer_width * 4 <= old(frame)@.len(),
    ensures
        final(frame)@.len() == old(frame)@.len(),
        final(frame)@ == filled(
            old(frame)@,
            buffer_width as int,
            coords.spec_pixel_origin(PIXELS_PER_CELL),
            PIXELS_PER_CELL as int,
            PIXELS_PER_CELL as int,
            rgb,
        ),
{
    let len: usize = frame.len();
    assert((coords.y + 1) * PIXELS_PER_CELL <= len) by (nonlinear_arith)
        requires
            (coords.y + 1) * PIXELS_PER_CELL * buffer_width * 4 <= len,
            buffer_width >= 1,
    ;
    let pixel_coords = coords.pixel_origin(PIXELS_PER_CELL);
    fill_rect(frame, buffer_width, pixel_coords, PIXELS_PER_CELL, PIXELS_PER_CELL, rgb);
}

} // verus!
