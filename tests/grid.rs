use image_grid::config::Rgba;
use image_grid::error::AppError;
use image_grid::grid::{cell_size, compose, PixelBuffer, PlacementMatrix};

const RED: Rgba = Rgba { r: 255, g: 0, b: 0, a: 255 };
const BLUE: Rgba = Rgba { r: 0, g: 0, b: 255, a: 255 };
const GREEN: Rgba = Rgba { r: 0, g: 255, b: 0, a: 255 };

#[test]
fn cell_size_truncates() {
    assert_eq!(cell_size(100, 100, 2, 2), (50, 50));
    assert_eq!(cell_size(101, 11, 4, 3), (33, 2));
    assert_eq!(cell_size(7, 5, 5, 7), (1, 1));
    assert_eq!(cell_size(7, 5, 7, 5), (1, 0));
}

#[test]
fn cells_never_overshoot_canvas() {
    for &(w, h, rows, cols) in &[(1u32, 1u32, 1u32, 1u32), (10, 11, 3, 4), (99, 1000, 7, 13), (5, 5, 5, 5)] {
        let (cw, ch) = cell_size(w, h, rows, cols);
        assert!(cw * cols <= w);
        assert!(ch * rows <= h);
    }
}

#[test]
fn filled_buffer_has_color_everywhere() {
    let b = PixelBuffer::filled(3, 2, RED);
    assert_eq!(b.width, 3);
    assert_eq!(b.height, 2);
    for y in 0..2 {
        for x in 0..3 {
            assert_eq!(b.get_pixel(x, y), RED);
        }
    }
}

#[test]
fn matrix_set_out_of_range_is_an_error() {
    let mut m = PlacementMatrix::new(2, 2);
    assert_eq!(m.set(3, 0, PixelBuffer::filled(1, 1, RED)), Err(AppError::CellOutOfRangeError));
    assert_eq!(m.set(0, 3, PixelBuffer::filled(1, 1, RED)), Err(AppError::CellOutOfRangeError));
    assert!(m.get(3, 0).is_none());
    // The extra row and column exist.
    assert_eq!(m.set(2, 2, PixelBuffer::filled(1, 1, RED)), Ok(()));
    assert_eq!(m.get(2, 2).unwrap().get_pixel(0, 0), RED);
}

#[test]
fn matrix_set_overwrites() {
    let mut m = PlacementMatrix::new(1, 1);
    assert!(m.get(0, 0).is_none());
    m.set(0, 0, PixelBuffer::filled(1, 1, RED)).unwrap();
    m.set(0, 0, PixelBuffer::filled(1, 1, GREEN)).unwrap();
    assert_eq!(m.get(0, 0).unwrap().get_pixel(0, 0), GREEN);
}

#[test]
fn composite_single_red_cell_on_blue() {
    let mut m = PlacementMatrix::new(2, 2);
    m.set(0, 0, PixelBuffer::filled(50, 50, RED)).unwrap();
    let canvas = compose(100, 100, 50, 50, &m, BLUE);
    assert_eq!(canvas.width, 100);
    assert_eq!(canvas.height, 100);
    for y in 0..100 {
        for x in 0..100 {
            let expected = if x < 50 && y < 50 { RED } else { BLUE };
            assert_eq!(canvas.get_pixel(x, y), expected);
        }
    }
}

#[test]
fn composite_copies_local_coordinates() {
    // A 2x2 cell with four distinct pixels placed at (1, 0) of a 2x2 grid.
    let mut cell = PixelBuffer::filled(2, 2, RED);
    cell.pixels[0][1] = GREEN;
    cell.pixels[1][0] = BLUE;
    let mut m = PlacementMatrix::new(2, 2);
    m.set(1, 0, cell).unwrap();
    let canvas = compose(5, 5, 2, 2, &m, Rgba { r: 1, g: 2, b: 3, a: 4 });
    assert_eq!(canvas.get_pixel(0, 2), RED);
    assert_eq!(canvas.get_pixel(1, 2), GREEN);
    assert_eq!(canvas.get_pixel(0, 3), BLUE);
    assert_eq!(canvas.get_pixel(1, 3), RED);
    assert_eq!(canvas.get_pixel(2, 2), Rgba { r: 1, g: 2, b: 3, a: 4 });
    // The trailing strip maps to the extra row and column, empty here.
    assert_eq!(canvas.get_pixel(4, 4), Rgba { r: 1, g: 2, b: 3, a: 4 });
}

#[test]
fn composite_beyond_extra_slot_is_background() {
    // 11 / 4 = 2, so y = 10 maps to row 5, past the extra row: background.
    let mut m = PlacementMatrix::new(4, 1);
    m.set(4, 0, PixelBuffer::filled(5, 2, RED)).unwrap();
    let canvas = compose(5, 11, 5, 2, &m, BLUE);
    assert_eq!(canvas.get_pixel(0, 8), RED);
    assert_eq!(canvas.get_pixel(0, 9), RED);
    assert_eq!(canvas.get_pixel(0, 10), BLUE);
}

#[test]
fn compose_twice_is_identical() {
    let mut m = PlacementMatrix::new(2, 2);
    m.set(0, 0, PixelBuffer::filled(3, 3, RED)).unwrap();
    m.set(0, 1, PixelBuffer::filled(3, 3, GREEN)).unwrap();
    m.set(1, 0, PixelBuffer::filled(3, 3, BLUE)).unwrap();
    m.set(1, 1, PixelBuffer::filled(3, 3, RED)).unwrap();
    let a = compose(7, 7, 3, 3, &m, BLUE);
    let b = compose(7, 7, 3, 3, &m, BLUE);
    assert_eq!(a.pixels, b.pixels);
}
