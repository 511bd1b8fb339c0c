use game_of_life::color::{ColorMode, Rgb};
use game_of_life::coords::{GridCoords, PixelCoords, PIXELS_PER_CELL};
use game_of_life::draw::{fill_cell, fill_rect};
use game_of_life::render::render;

fn pixel(frame: &[u8], buffer_width: usize, x: usize, y: usize) -> [u8; 4] {
    let idx = (y * buffer_width + x) * 4;
    [frame[idx], frame[idx + 1], frame[idx + 2], frame[idx + 3]]
}

#[test]
fn origin_is_zero_zero() {
    assert_eq!(PixelCoords::origin(), PixelCoords { x: 0, y: 0 });
}

#[test]
fn cell_size_is_sixteen() {
    assert_eq!(PIXELS_PER_CELL, 16);
}

#[test]
fn pixel_origin_scales_both_coordinates() {
    let cell = GridCoords { x: 3, y: 5 };
    assert_eq!(cell.pixel_origin(16), PixelCoords { x: 48, y: 80 });
    assert_eq!(cell.pixel_origin(1), PixelCoords { x: 3, y: 5 });
    assert_eq!(GridCoords { x: 0, y: 0 }.pixel_origin(16), PixelCoords::origin());
}

#[test]
fn fixed_colors() {
    assert_eq!(Rgb::black(), Rgb(0, 0, 0));
    assert_eq!(Rgb::white(), Rgb(255, 255, 255));
    assert_eq!(ColorMode::Monochrome.next_color(), Rgb(255, 255, 255));
}

#[test]
fn random_colors_vary() {
    let first = Rgb::random();
    let mut differs = false;
    for _ in 0..64 {
        if Rgb::random() != first {
            differs = true;
        }
    }
    assert!(differs);
    let first = ColorMode::Random.next_color();
    let mut differs = false;
    for _ in 0..64 {
        if ColorMode::Random.next_color() != first {
            differs = true;
        }
    }
    assert!(differs);
}

#[test]
fn random_colors_reach_low_and_high_channels() {
    let mut low = false;
    let mut high = false;
    for _ in 0..2000 {
        let Rgb(r, g, b) = Rgb::random();
        for c in [r, g, b] {
            if c < 64 {
                low = true;
            }
            if c >= 192 {
                high = true;
            }
        }
    }
    assert!(low && high);
}

#[test]
fn fill_rect_writes_exactly_the_rectangle() {
    let (bw, bh) = (8usize, 6usize);
    let mut frame = vec![7u8; bw * bh * 4];
    fill_rect(&mut frame, bw, PixelCoords { x: 2, y: 1 }, 3, 2, Rgb(10, 20, 30));
    let mut written = 0;
    for y in 0..bh {
        for x in 0..bw {
            let inside = (2..5).contains(&x) && (1..3).contains(&y);
            if inside {
                assert_eq!(pixel(&frame, bw, x, y), [10, 20, 30, 255]);
                written += 1;
            } else {
                assert_eq!(pixel(&frame, bw, x, y), [7, 7, 7, 7]);
            }
        }
    }
    assert_eq!(written, 3 * 2);
    assert_eq!(frame.len(), bw * bh * 4);
}

#[test]
fn fill_rect_byte_offsets() {
    let bw = 4usize;
    let mut frame = vec![0u8; bw * 3 * 4];
    fill_rect(&mut frame, bw, PixelCoords { x: 1, y: 2 }, 1, 1, Rgb(1, 2, 3));
    let idx = (2 * bw + 1) * 4;
    assert_eq!(idx, 36);
    assert_eq!(&frame[36..40], &[1, 2, 3, 255]);
    assert!(frame[..36].iter().all(|b| *b == 0));
    assert!(frame[40..].iter().all(|b| *b == 0));
}

#[test]
fn fill_rect_of_no_area_writes_nothing() {
    let bw = 4usize;
    let mut frame = vec![9u8; bw * 4 * 4];
    fill_rect(&mut frame, bw, PixelCoords { x: 1, y: 1 }, 0, 2, Rgb(1, 2, 3));
    assert!(frame.iter().all(|b| *b == 9));
    fill_rect(&mut frame, bw, PixelCoords { x: 1, y: 1 }, 2, 0, Rgb(1, 2, 3));
    assert!(frame.iter().all(|b| *b == 9));
}

#[test]
fn fill_rect_clears_a_whole_frame() {
    let (bw, bh) = (5usize, 3usize);
    let mut frame = vec![200u8; bw * bh * 4];
    fill_rect(&mut frame, bw, PixelCoords::origin(), bw, bh, Rgb::black());
    for y in 0..bh {
        for x in 0..bw {
            assert_eq!(pixel(&frame, bw, x, y), [0, 0, 0, 255]);
        }
    }
}

#[test]
fn fill_rect_reaches_the_last_pixel() {
    let (bw, bh) = (3usize, 3usize);
    let mut frame = vec![0u8; bw * bh * 4];
    fill_rect(&mut frame, bw, PixelCoords { x: 2, y: 2 }, 1, 1, Rgb(4, 5, 6));
    assert_eq!(&frame[32..36], &[4, 5, 6, 255]);
    assert!(frame[..32].iter().all(|b| *b == 0));
}

#[test]
fn fill_cell_fills_one_square() {
    let (bw, bh) = (48usize, 32usize);
    let mut frame = vec![0u8; bw * bh * 4];
    fill_cell(&mut frame, bw, GridCoords { x: 2, y: 1 }, Rgb(9, 8, 7));
    let mut written = 0;
    for y in 0..bh {
        for x in 0..bw {
            if x >= 32 && y >= 16 {
                assert_eq!(pixel(&frame, bw, x, y), [9, 8, 7, 255]);
                written += 1;
            } else {
                assert_eq!(pixel(&frame, bw, x, y), [0, 0, 0, 0]);
            }
        }
    }
    assert_eq!(written, 16 * 16);
}

#[test]
fn render_monochrome_draws_white_squares_on_black() {
    let grid = vec![vec![true, false, false], vec![false, false, true]];
    let (bw, bh) = (48usize, 32usize);
    let mut frame = vec![123u8; bw * bh * 4];
    render(&mut frame, bw, bh, &grid, ColorMode::Monochrome);
    for y in 0..bh {
        for x in 0..bw {
            let expected = if grid[y / 16][x / 16] { [255, 255, 255, 255] } else { [0, 0, 0, 255] };
            assert_eq!(pixel(&frame, bw, x, y), expected);
        }
    }
}

#[test]
fn render_of_a_dead_grid_is_black() {
    let grid = vec![vec![false; 2]; 2];
    let mut frame = vec![77u8; 32 * 32 * 4];
    render(&mut frame, 32, 32, &grid, ColorMode::Random);
    for y in 0..32 {
        for x in 0..32 {
            assert_eq!(pixel(&frame, 32, x, y), [0, 0, 0, 255]);
        }
    }
}

#[test]
fn render_random_draws_one_opaque_color_per_cell() {
    let grid = vec![vec![true, true], vec![false, true]];
    let (bw, bh) = (32usize, 32usize);
    let mut frame = vec![0u8; bw * bh * 4];
    render(&mut frame, bw, bh, &grid, ColorMode::Random);
    for cy in 0..2 {
        for cx in 0..2 {
            let corner = pixel(&frame, bw, cx * 16, cy * 16);
            assert_eq!(corner[3], 255);
            if !grid[cy][cx] {
                assert_eq!(corner, [0, 0, 0, 255]);
            }
            for y in cy * 16..cy * 16 + 16 {
                for x in cx * 16..cx * 16 + 16 {
                    assert_eq!(pixel(&frame, bw, x, y), corner);
                }
            }
        }
    }
}

#[test]
fn from_channels_keeps_each_channel_in_its_place() {
    assert_eq!(Rgb::from_channels(1, 2, 3), Rgb(1, 2, 3));
    assert_eq!(Rgb::from_channels(0, 0, 0), Rgb::black());
    assert_eq!(Rgb::from_channels(255, 255, 255), Rgb::white());
    let Rgb(r, g, b) = Rgb::from_channels(10, 200, 30);
    assert_eq!((r, g, b), (10, 200, 30));
}
