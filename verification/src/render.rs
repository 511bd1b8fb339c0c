//! Drawing a generation into a frame: a black background with one opaque
//! square for each living cell.

use crate::color::{ColorMode, Rgb};
use crate::coords::{GridCoords, PixelCoords, PIXELS_PER_CELL};
use crate::draw::{fill_cell, fill_rect, pixel_x, pixel_y};
use crate::grid::{cells, height, in_bounds, well_formed, width};
use vstd::arithmetic::div_mod::{lemma_div_pos_is_pos, lemma_mod_bound, lemma_multiply_divide_lt};
use vstd::prelude::*;

verus! {

/// Whether byte `i` of the frame belongs to a pixel of the cell at `(cx, cy)`.
pub open spec fn in_cell(i: int, buffer_width: int, cx: int, cy: int) -> bool {
    pixel_x(i, buffer_width) / (PIXELS_PER_CELL as int) == cx && pixel_y(i, buffer_width) / (
    PIXELS_PER_CELL as int) == cy
}

/// Whether every pixel of the cell at `(cx, cy)` holds the colour `rgb` with
/// full opacity.
pub open spec fn cell_has_color(frame: Seq<u8>, buffer_width: int, cx: int, cy: int, rgb: Rgb) -> bool {
    forall|i: int|
        0 <= i < frame.len() && in_cell(i, buffer_width, cx, cy) ==> #[trigger] frame[i]
            == rgb.channel(i % 4)
}

/// Whether the frame shows the generation `g`: every cell is a square of one
/// opaque colour, which is black for a dead cell and, in monochrome mode,
/// white for a living one.
pub open spec fn shows(frame: Seq<u8>, buffer_width: int, g: Seq<Seq<bool>>, mode: ColorMode) -> bool {
    forall|cx: int, cy: int| #[trigger]
        in_bounds(g, cx, cy) ==> exists|rgb: Rgb|
            {
                &&& #[trigger] cell_has_color(frame, buffer_width, cx, cy, rgb)
                &&& !g[cy][cx] ==> rgb == Rgb::black()
                &&& g[cy][cx] && mode == ColorMode::Monochrome ==> rgb == Rgb::white()
            }
}

/// Every byte of a frame that is `buffer_width` pixels wide and
/// `buffer_height` pixels high belongs to a pixel inside the frame.
pub proof fn lemma_pixel_in_frame(i: int, buffer_width: int, buffer_height: int)
    requires
        0 <= i < buffer_width * buffer_height * 4,
        0 <= buffer_width,
    ensures
        0 <= pixel_x(i, buffer_width) < buffer_width,
        0 <= pixel_y(i, buffer_width) < buffer_height,
{
    assert(buffer_width * buffer_height * 4 == (buffer_width * buffer_height) * 4)
        by (nonlinear_arith);
    assert(buffer_width > 0) by (nonlinear_arith)
        requires
            0 < buffer_width * buffer_height * 4,
            0 <= buffer_width,
    ;
    lemma_multiply_divide_lt(i / 4, buffer_width, buffer_height);
    lemma_mod_bound(i / 4, buffer_width);
    lemma_div_pos_is_pos(i / 4, buffer_width);
}

/// The colour that byte `i` shows once the cells before `(x, y)`, row by row,
/// have been drawn with the colours in `colors`.
spec fn drawn_color(
    i: int,
    buffer_width: int,
    g: Seq<Seq<bool>>,
    colors: spec_fn((int, int)) -> Rgb,
    x: int,
    y: int,
) -> Rgb {
    let cx = pixel_x(i, buffer_width) / (PIXELS_PER_CELL as int);
    let cy = pixel_y(i, buffer_width) / (PIXELS_PER_CELL as int);
    if (cy < y || (cy == y && cx < x)) && g[cy][cx] {
        colors((cx, cy))
    } else {
        Rgb::black()
    }
}

/// Clears the frame to black and draws each living cell of `grid` as a square
/// in the colour that `mode` gives for it.
pub fn render(
    frame: &mut [u8],
    buffer_width: usize,
    buffer_height: usize,
    grid: &Vec<Vec<bool>>,
    mode: ColorMode,
)
    requires
        well_formed(cells(grid)),
        buffer_width == width(cells(grid)) * PIXELS_PER_CELL,
        buffer_height == height(cells(grid)) * PIXELS_PER_CELL,
        old(frame)@.len() == buffer_width * buffer_height * 4,
    ensures
        final(frame)@.len() == old(frame)@.len(),
        shows(final(frame)@, buffer_width as int, cells(grid), mode),
{
    let ghost g = cells(grid);
    let ghost bw = buffer_width as int;
    let ghost bh = buffer_height as int;
    let len: usize = frame.len();
    let grid_height: usize = grid.len();
    let grid_width: usize = grid[0].len();
    assert((0 + bh) * bw * 4 == bw * bh * 4) by (nonlinear_arith);
    fill_rect(frame, buffer_width, PixelCoords::origin(), buffer_width, buffer_height, Rgb::black());
    let ghost mut colors: spec_fn((int, int)) -> Rgb = |key: (int, int)| Rgb::white();
    proof {
        assert forall|i: int| 0 <= i < len implies #[trigger] frame@[i] == Rgb::black().channel(
            i % 4,
        ) by {
            lemma_pixel_in_frame(i, bw, bh);
        }
    }
    let mut y: usize = 0;
    while y < grid_height
        invariant
            g == cells(grid),
            well_formed(g),
            grid_height == g.len(),
            grid_width == g[0].len(),
            bw == buffer_width == grid_width * PIXELS_PER_CELL,
            bh == buffer_height == grid_height * PIXELS_PER_CELL,
            len == bw * bh * 4,
            frame@.len() == len,
            y <= grid_height,
            forall|i: int|
                0 <= i < len ==> #[trigger] frame@[i] == drawn_color(i, bw, g, colors, 0, y as int).channel(
                    i % 4,
                ),
            mode == ColorMode::Monochrome ==> forall|key: (int, int)| #[trigger]
                colors(key) == Rgb::white(),
        decreases grid_height - y,
    {
        let mut x: usize = 0;
        assert(g[y as int].len() == g[0].len());
        while x < grid_width
            invariant
                g == cells(grid),
                well_formed(g),
                grid_height == g.len(),
                grid_width == g[0].len(),
                grid_width == g[y as int].len(),
                bw == buffer_width == grid_width * PIXELS_PER_CELL,
                bh == buffer_height == grid_height * PIXELS_PER_CELL,
                len == bw * bh * 4,
                frame@.len() == len,
                y < grid_height,
                x <= grid_width,
                    forall|i: int|
                    0 <= i < len ==> #[trigger] frame@[i] == drawn_color(
                        i,
                        bw,
                        g,
                        colors,
                        x as int,
                        y as int,
                    ).channel(i % 4),
                mode == ColorMode::Monochrome ==> forall|key: (int, int)| #[trigger]
                    colors(key) == Rgb::white(),
            decreases grid_width - x,
        {
            if grid[y][x] {
                let rgb = mode.next_color();
                let ghost prev = frame@;
                let ghost prev_colors = colors;
                assert((y + 1) * PIXELS_PER_CELL * bw * 4 <= bw * bh * 4) by (nonlinear_arith)
                    requires
                        (y + 1) * PIXELS_PER_CELL <= bh,
                        bw >= 0,
                ;
                fill_cell(frame, buffer_width, GridCoords { x, y }, rgb);
                proof {
                    colors =
                    |key: (int, int)|
                        if key == (x as int, y as int) {
                            rgb
                        } else {
                            prev_colors(key)
                        };
                    assert forall|i: int| 0 <= i < len implies #[trigger] frame@[i] == drawn_color(
                        i,
                        bw,
                        g,
                        colors,
                        x + 1,
                        y as int,
                    ).channel(i % 4) by {
                        assert(prev[i] == drawn_color(i, bw, g, prev_colors, x as int, y as int).channel(
                            i % 4,
                        ));
                    }
                }
            }
            x += 1;
        }
        y += 1;
    }
    proof {
        assert forall|cx: int, cy: int| #[trigger] in_bounds(g, cx, cy) implies exists|rgb: Rgb|
            {
                &&& #[trigger] cell_has_color(frame@, bw, cx, cy, rgb)
                &&& !g[cy][cx] ==> rgb == Rgb::black()
                &&& g[cy][cx] && mode == ColorMode::Monochrome ==> rgb == Rgb::white()
            } by {
            let rgb = if g[cy][cx] {
                colors((cx, cy))
            } else {
                Rgb::black()
            };
            assert forall|i: int| 0 <= i < frame@.len() && in_cell(i, bw, cx, cy) implies #[trigger] frame@[i]
                == rgb.channel(i % 4) by {
                assert(frame@[i] == drawn_color(i, bw, g, colors, 0, grid_height as int).channel(i % 4));
            }
            assert(cell_has_color(frame@, bw, cx, cy, rgb));
        }
    }
}

} // verus!
