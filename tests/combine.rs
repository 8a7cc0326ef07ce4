use image_grid::combine::{combine, fit_to_box, pad_to_exact, prepare_cell, resize};
use image_grid::config::{Config, ImageConfig, Rgba};
use image_grid::error::AppError;
use image_grid::grid::PixelBuffer;

const RED: Rgba = Rgba { r: 255, g: 0, b: 0, a: 255 };
const BLUE: Rgba = Rgba { r: 0, g: 0, b: 255, a: 255 };
const WHITE: Rgba = Rgba { r: 255, g: 255, b: 255, a: 255 };

fn two_colors(width: u32, height: u32) -> PixelBuffer {
    // Left half red, right half blue.
    let mut b = PixelBuffer::filled(width, height, RED);
    for row in b.pixels.iter_mut() {
        for x in (width / 2) as usize..width as usize {
            row[x] = BLUE;
        }
    }
    b
}

#[test]
fn fit_snaps_width_of_wide_image() {
    let r = fit_to_box(&PixelBuffer::filled(200, 100, RED), 50, 50);
    assert_eq!((r.width, r.height), (50, 25));
}

#[test]
fn fit_snaps_height_of_tall_image() {
    let r = fit_to_box(&PixelBuffer::filled(30, 90, RED), 60, 60);
    assert_eq!((r.width, r.height), (20, 60));
}

#[test]
fn fit_keeps_one_side_on_the_box() {
    for &(sw, sh, bw, bh) in &[(1u32, 1u32, 7u32, 3u32), (3, 7, 10, 10), (640, 480, 33, 17), (5, 5, 5, 5), (1, 100, 9, 9)] {
        let r = fit_to_box(&PixelBuffer::filled(sw, sh, RED), bw, bh);
        assert!(r.width <= bw && r.height <= bh);
        assert!(r.width == bw || r.height == bh);
        assert_eq!(r.pixels.len(), r.height as usize);
    }
}

#[test]
fn fit_samples_the_source() {
    let r = fit_to_box(&two_colors(2, 1), 4, 4);
    assert_eq!((r.width, r.height), (4, 2));
    assert_eq!(r.get_pixel(0, 0), RED);
    assert_eq!(r.get_pixel(3, 1), BLUE);
}

#[test]
fn pad_narrow_image_centres_horizontally() {
    let fitted = PixelBuffer::filled(5, 10, RED);
    let cell = pad_to_exact(&fitted, 10, 10, WHITE);
    // Offset (10 - 5) / 2 = 2: columns 2..7 are the image, the odd column goes right.
    for y in 0..10 {
        for x in 0..10 {
            let expected = if (2..7).contains(&x) { RED } else { WHITE };
            assert_eq!(cell.get_pixel(x, y), expected);
        }
    }
}

#[test]
fn pad_short_image_centres_vertically() {
    let fitted = PixelBuffer::filled(4, 1, RED);
    let cell = pad_to_exact(&fitted, 4, 4, WHITE);
    assert_eq!(cell.get_pixel(0, 0), WHITE);
    assert_eq!(cell.get_pixel(0, 1), RED);
    assert_eq!(cell.get_pixel(3, 1), RED);
    assert_eq!(cell.get_pixel(0, 2), WHITE);
    assert_eq!(cell.get_pixel(0, 3), WHITE);
}

#[test]
fn pad_exact_image_is_unchanged() {
    let fitted = two_colors(4, 3);
    let cell = pad_to_exact(&fitted, 4, 3, WHITE);
    assert_eq!(cell.pixels, fitted.pixels);
}

#[test]
fn pad_unsnapped_image_is_all_background() {
    let cell = pad_to_exact(&PixelBuffer::filled(2, 2, RED), 4, 4, WHITE);
    assert!(cell.pixels.iter().flatten().all(|p| *p == WHITE));
}

#[test]
fn resize_makes_an_exact_cell() {
    let cell = resize(10, 10, &PixelBuffer::filled(40, 20, RED), WHITE);
    assert_eq!((cell.width, cell.height), (10, 10));
    // Fitted to 10x5, offset (10 - 5) / 2 = 2.
    assert_eq!(cell.get_pixel(0, 1), WHITE);
    assert_eq!(cell.get_pixel(0, 2), RED);
    assert_eq!(cell.get_pixel(9, 6), RED);
    assert_eq!(cell.get_pixel(9, 7), WHITE);
}

fn config(rows: u32, cols: u32, width: u32, height: u32, images: Vec<(usize, usize)>) -> Config {
    Config {
        output: String::from("out.png"),
        rows,
        cols,
        height,
        width,
        background_color: BLUE,
        images: images.into_iter().map(|(row, col)| ImageConfig { row, col, path: String::from("a.png") }).collect(),
        threads: 1,
    }
}

#[test]
fn combine_end_to_end() {
    let c = config(2, 2, 100, 100, vec![(0, 0)]);
    let canvas = combine(&c, &vec![PixelBuffer::filled(10, 10, RED)]).unwrap();
    for y in 0..100 {
        for x in 0..100 {
            let expected = if x < 50 && y < 50 { RED } else { BLUE };
            assert_eq!(canvas.get_pixel(x, y), expected);
        }
    }
}

#[test]
fn combine_last_placement_wins() {
    let c = config(1, 1, 4, 4, vec![(0, 0), (0, 0)]);
    let canvas = combine(&c, &vec![PixelBuffer::filled(2, 2, RED), PixelBuffer::filled(2, 2, WHITE)]).unwrap();
    assert_eq!(canvas.get_pixel(0, 0), WHITE);
}

#[test]
fn combine_reports_empty_source() {
    let c = config(2, 2, 10, 10, vec![(0, 0), (5, 5)]);
    let r = combine(&c, &vec![PixelBuffer::filled(0, 3, RED), PixelBuffer::filled(2, 2, RED)]);
    assert_eq!(r.unwrap_err(), AppError::LoadImageError);
}

#[test]
fn combine_reports_cell_out_of_range() {
    let c = config(2, 2, 10, 10, vec![(0, 0), (3, 0), (0, 0)]);
    let r = combine(&c, &vec![PixelBuffer::filled(2, 2, RED), PixelBuffer::filled(2, 2, RED), PixelBuffer::filled(0, 0, RED)]);
    assert_eq!(r.unwrap_err(), AppError::CellOutOfRangeError);
}

#[test]
fn fit_other_side_within_one_pixel() {
    for &(sw, sh, bw, bh) in &[(3u32, 7u32, 10u32, 10u32), (640, 480, 33, 17), (1000, 3, 7, 7), (13, 11, 29, 31)] {
        let r = fit_to_box(&PixelBuffer::filled(sw, sh, RED), bw, bh);
        let (sw, sh, bw, bh, rw, rh) = (sw as u64, sh as u64, bw as u64, bh as u64, r.width as u64, r.height as u64);
        if bw * sh <= bh * sw {
            assert_eq!(rw, bw);
            assert!((rh - 1) * sw < bw * sh && bw * sh < (rh + 1) * sw);
        } else {
            assert_eq!(rh, bh);
            assert!((rw - 1) * sh < bh * sw && bh * sw < (rw + 1) * sh);
        }
    }
    let r = fit_to_box(&PixelBuffer::filled(3, 7, RED), 10, 10);
    assert_eq!((r.width, r.height), (4, 10));
}

#[test]
fn prepare_cell_checks_source() {
    assert_eq!(prepare_cell(&PixelBuffer::filled(0, 4, RED), 5, 5, WHITE).unwrap_err(), AppError::LoadImageError);
    let cell = prepare_cell(&PixelBuffer::filled(4, 2, RED), 6, 6, WHITE).unwrap();
    assert_eq!((cell.width, cell.height), (6, 6));
    assert_eq!(cell.get_pixel(0, 0), WHITE);
    // Fitted to 6x3, offset (6 - 3) / 2 = 1: rows 1 to 3 are the image.
    assert_eq!(cell.get_pixel(0, 1), RED);
    assert_eq!(cell.get_pixel(5, 3), RED);
    assert_eq!(cell.get_pixel(5, 4), WHITE);
}
