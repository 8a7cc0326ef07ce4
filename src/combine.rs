use vstd::prelude::*;

use crate::config::{Config, Rgba};
use crate::error::AppError;
use crate::grid::{
    cells_sized, composed, compose, empty_matrix, is_rect, matrix_get, matrix_set,
    MatrixModel, PixelBuffer, PlacementMatrix,
};

verus! {

/// The pixels of `pixels` scaled with nearest-neighbour sampling to the
/// largest size that fits a box of `box_width` by `box_height` with the aspect
/// ratio kept.
pub uninterp spec fn nearest_fit_of(pixels: Seq<Seq<Rgba>>, box_width: u32, box_height: u32) -> Seq<Seq<Rgba>>;

/// Relies on `image::DynamicImage::resize` with `FilterType::Nearest`. Its size
/// comes from `resize_dimensions`: one ratio, the smaller of the box's to the
/// image's on each axis, is applied to both sides and rounded, at least 1. The
/// axis with the smaller ratio (either, on a tie) so lands on the box exactly;
/// the other is its source side times that ratio, rounded, so within one pixel
/// of it, and does not pass the box.
#[verifier::external_body]
fn resize_nearest(image: &PixelBuffer, box_width: u32, box_height: u32) -> (r: PixelBuffer)
    requires
        image.wf(),
        image.width >= 1,
        image.height >= 1,
        box_width >= 1,
        box_height >= 1,
    ensures
        r.wf(),
        r@ == nearest_fit_of(image@, box_width, box_height),
        1 <= r.width <= box_width,
        1 <= r.height <= box_height,
        box_width * image.height <= box_height * image.width ==> r.width == box_width,
        box_height * image.width <= box_width * image.height ==> r.height == box_height,
        box_width * image.height <= box_height * image.width ==> (r.height - 1) * image.width < box_width
            * image.height < (r.height + 1) * image.width,
        box_height * image.width <= box_width * image.height ==> (r.width - 1) * image.height < box_height
            * image.width < (r.width + 1) * image.height,
{
    let raw: Vec<u8> = image.pixels.iter().flatten().flat_map(|p| [p.r, p.g, p.b, p.a]).collect();
    let buffer = image::RgbaImage::from_raw(image.width, image.height, raw).unwrap();
    let out = image::DynamicImage::ImageRgba8(buffer)
        .resize(box_width, box_height, image::imageops::FilterType::Nearest)
        .into_rgba8();
    let pixels = out.rows().map(|row| row.map(|p| Rgba { r: p.0[0], g: p.0[1], b: p.0[2], a: p.0[3] }).collect()).collect();
    PixelBuffer { width: out.width(), height: out.height(), pixels }
}

/// Scales `image` to fit a box with its aspect ratio kept. At least one side
/// of the result equals the box's, neither passes it, and the other side is
/// within one pixel of its source side scaled by the same ratio.
pub fn fit_to_box(image: &PixelBuffer, box_width: u32, box_height: u32) -> (r: PixelBuffer)
    requires
        image.wf(),
        image.width >= 1,
        image.height >= 1,
        box_width >= 1,
        box_height >= 1,
    ensures
        r.wf(),
        r@ == nearest_fit_of(image@, box_width, box_height),
        1 <= r.width <= box_width,
        1 <= r.height <= box_height,
        r.width == box_width || r.height == box_height,
        box_width * image.height <= box_height * image.width ==> r.width == box_width,
        box_height * image.width <= box_width * image.height ==> r.height == box_height,
        box_width * image.height <= box_height * image.width ==> (r.height - 1) * image.width < box_width
            * image.height < (r.height + 1) * image.width,
        box_height * image.width <= box_width * image.height ==> (r.width - 1) * image.height < box_height
            * image.width < (r.width + 1) * image.height,
{
    resize_nearest(image, box_width, box_height)
}

/// The pixel at `(x, y)` of a `box_width` by `box_height` cell made from a
/// fitted image `fit` of `fit_width` by `fit_height` pixels. When the width
/// fits exactly the image is centred vertically, otherwise when the height
/// fits it is centred horizontally; an odd leftover goes to the bottom or the
/// right. The rest is `pad`.
pub open spec fn padded_pixel(
    fit: Seq<Seq<Rgba>>,
    fit_width: int,
    fit_height: int,
    box_width: int,
    box_height: int,
    pad: Rgba,
    x: int,
    y: int,
) -> Rgba {
    if fit_width == box_width {
        let y_offset = (box_height - fit_height) / 2;
        if y < y_offset || y >= y_offset + fit_height {
            pad
        } else {
            fit[y - y_offset][x]
        }
    } else if fit_height == box_height {
        let x_offset = (box_width - fit_width) / 2;
        if x < x_offset || x >= x_offset + fit_width {
            pad
        } else {
            fit[y][x - x_offset]
        }
    } else {
        pad
    }
}

/// The whole padded cell, row by row.
pub open spec fn padded(
    fit: Seq<Seq<Rgba>>,
    fit_width: int,
    fit_height: int,
    box_width: int,
    box_height: int,
    pad: Rgba,
) -> Seq<Seq<Rgba>> {
    Seq::new(
        box_height as nat,
        |y: int| Seq::new(box_width as nat, |x: int| padded_pixel(fit, fit_width, fit_height, box_width, box_height, pad, x, y)),
    )
}

/// Places a fitted image inside a box of exactly `box_width` by `box_height`
/// pixels, centred on the axis that does not fit, and fills the rest with `pad`.
pub fn pad_to_exact(fitted: &PixelBuffer, box_width: u32, box_height: u32, pad: Rgba) -> (r: PixelBuffer)
    requires
        fitted.wf(),
        fitted.width <= box_width,
        fitted.height <= box_height,
    ensures
        r.wf(),
        r.width == box_width,
        r.height == box_height,
        r@ == padded(fitted@, fitted.width as int, fitted.height as int, box_width as int, box_height as int, pad),
        fitted.width < box_width ==> forall|x: int, y: int|
            0 <= x < box_width && 0 <= y < box_height && (x < (box_width - fitted.width) / 2 || x
                >= (box_width - fitted.width) / 2 + fitted.width) ==> #[trigger] r@[y][x] == pad,
{
    let ghost target = padded(fitted@, fitted.width as int, fitted.height as int, box_width as int, box_height as int, pad);
    let fit_width = fitted.width;
    let fit_height = fitted.height;
    let mut pixels: Vec<Vec<Rgba>> = Vec::new();
    let mut y: u32 = 0;
    while y < box_height
        invariant
            fitted.wf(),
            fit_width == fitted.width,
            fit_height == fitted.height,
            fit_width <= box_width,
            fit_height <= box_height,
            y <= box_height,
            target == padded(fitted@, fit_width as int, fit_height as int, box_width as int, box_height as int, pad),
            pixels@.len() == y,
            forall|j: int| 0 <= j < y ==> #[trigger] pixels@[j]@ == target[j],
        decreases box_height - y,
    {
        let mut row: Vec<Rgba> = Vec::new();
        let mut x: u32 = 0;
        while x < box_width
            invariant
                fitted.wf(),
                fit_width == fitted.width,
                fit_height == fitted.height,
                fit_width <= box_width,
                fit_height <= box_height,
                y < box_height,
                x <= box_width,
                target == padded(fitted@, fit_width as int, fit_height as int, box_width as int, box_height as int, pad),
                row@.len() == x,
                forall|i: int| 0 <= i < x ==> #[trigger] row@[i] == target[y as int][i],
            decreases box_width - x,
        {
            let pixel = if fit_width == box_width {
                let y_offset = (box_height - fit_height) / 2;
                if y < y_offset || y - y_offset >= fit_height {
                    pad
                } else {
                    fitted.get_pixel(x, y - y_offset)
                }
            } else if fit_height == box_height {
                let x_offset = (box_width - fit_width) / 2;
                if x < x_offset || x - x_offset >= fit_width {
                    pad
                } else {
                    fitted.get_pixel(x - x_offset, y)
                }
            } else {
                pad
            };
            assert(target[y as int][x as int] == padded_pixel(fitted@, fit_width as int, fit_height as int, box_width as int, box_height as int, pad, x as int, y as int));
            assert(pixel == target[y as int][x as int]);
            row.push(pixel);
            x = x + 1;
        }
        assert(row@ =~= target[y as int]);
        pixels.push(row);
        y = y + 1;
    }
    let r = PixelBuffer { width: box_width, height: box_height, pixels };
    assert(r@ =~= target) by {
        assert forall|j: int| 0 <= j < box_height implies #[trigger] r@[j] =~= target[j] by {
            assert(r@[j] == pixels@[j]@);
        }
    }
    r
}

/// The width of a rectangle of rows: that of its first row.
pub open spec fn seq_width(rows: Seq<Seq<Rgba>>) -> int {
    if rows.len() == 0 {
        0
    } else {
        rows[0].len() as int
    }
}

/// The cell that a source image becomes: fitted to the cell, then padded.
pub open spec fn cell_image(source: Seq<Seq<Rgba>>, cell_width: u32, cell_height: u32, pad: Rgba) -> Seq<Seq<Rgba>> {
    let fit = nearest_fit_of(source, cell_width, cell_height);
    padded(fit, seq_width(fit), fit.len() as int, cell_width as int, cell_height as int, pad)
}

/// Turns a decoded source image into a cell image of exactly
/// `width` by `height` pixels: fitted, centred, and padded with `pad`.
pub fn resize(width: u32, height: u32, image: &PixelBuffer, pad: Rgba) -> (r: PixelBuffer)
    requires
        image.wf(),
        image.width >= 1,
        image.height >= 1,
        width >= 1,
        height >= 1,
    ensures
        r.wf(),
        r.width == width,
        r.height == height,
        r@ == cell_image(image@, width, height, pad),
{
    let fitted = fit_to_box(image, width, height);
    assert(fitted@[0].len() == fitted.width);
    pad_to_exact(&fitted, width, height, pad)
}

/// Turns one decoded source into its cell: an error for a source without a
/// single pixel, otherwise the source fitted and padded to the cell.
pub fn prepare_cell(source: &PixelBuffer, cell_width: u32, cell_height: u32, pad: Rgba) -> (r: Result<
    PixelBuffer,
    AppError,
>)
    requires
        source.wf(),
        cell_width >= 1,
        cell_height >= 1,
    ensures
        r is Err <==> is_empty_image(*source),
        r is Err ==> r->Err_0 == AppError::LoadImageError,
        r is Ok ==> ({
            let cell = r->Ok_0;
            &&& cell.wf()
            &&& cell.width == cell_width
            &&& cell.height == cell_height
            &&& cell@ == cell_image(source@, cell_width, cell_height, pad)
        }),
{
    if source.width == 0 || source.height == 0 {
        return Err(AppError::LoadImageError);
    }
    Ok(resize(cell_width, cell_height, source, pad))
}

/// A placement ready to enter the matrix: row, column and cell image.
pub type Entry = (int, int, Seq<Seq<Rgba>>);

/// The matrix after placing `entries` in order, each over what was there.
pub open spec fn place_all(m: MatrixModel, entries: Seq<Entry>) -> MatrixModel
    decreases entries.len(),
{
    if entries.len() == 0 {
        m
    } else {
        let e = entries.last();
        matrix_set(place_all(m, entries.drop_last()), e.0, e.1, e.2)
    }
}

/// The entries that the placements of `config` make from the decoded `sources`.
pub open spec fn entries_of(config: &Config, sources: Seq<PixelBuffer>) -> Seq<Entry> {
    let (cell_width, cell_height) = (
        (config.width / config.cols) as u32,
        (config.height / config.rows) as u32,
    );
    Seq::new(
        sources.len(),
        |i: int|
            (
                config.images@[i].row as int,
                config.images@[i].col as int,
                cell_image(sources[i]@, cell_width, cell_height, config.background_color),
            ),
    )
}

/// A decoded source without a single pixel cannot be fitted.
pub open spec fn is_empty_image(image: PixelBuffer) -> bool {
    image.width == 0 || image.height == 0
}

/// Whether placement `i` cannot be carried out: its source is empty, or its
/// cell lies outside the matrix.
pub open spec fn placement_fails(config: &Config, sources: Seq<PixelBuffer>, i: int) -> bool {
    is_empty_image(sources[i]) || config.images@[i].row > config.rows || config.images@[i].col > config.cols
}

/// The error that a failing placement `i` reports.
pub open spec fn placement_error(config: &Config, sources: Seq<PixelBuffer>, i: int) -> AppError {
    if is_empty_image(sources[i]) {
        AppError::LoadImageError
    } else {
        AppError::CellOutOfRangeError
    }
}

/// Combines decoded images into one canvas. `sources[i]` is the decoded
/// image of `config.images[i]`. Each is fitted and padded to its cell and
/// placed in order, a later placement replacing an earlier one at the same
/// cell; then every canvas pixel is painted from its cell. The first placement
/// that cannot be carried out stops the run with its error.
pub fn combine(config: &Config, sources: &Vec<PixelBuffer>) -> (r: Result<PixelBuffer, AppError>)
    requires
        config.rows >= 1,
        config.cols >= 1,
        config.rows < u32::MAX,
        config.cols < u32::MAX,
        config.width >= config.cols,
        config.height >= config.rows,
        sources@.len() == config.images@.len(),
        forall|i: int| 0 <= i < sources@.len() ==> (#[trigger] sources@[i]).wf(),
    ensures
        r is Ok <==> forall|i: int| 0 <= i < sources@.len() ==> !placement_fails(config, sources@, i),
        r is Err ==> exists|i: int|
            0 <= i < sources@.len() && placement_fails(config, sources@, i) && (forall|j: int|
                0 <= j < i ==> !placement_fails(config, sources@, j)) && r->Err_0 == placement_error(config, sources@, i),
        r is Ok ==> ({
            let canvas = r->Ok_0;
            &&& canvas.wf()
            &&& canvas.width == config.width
            &&& canvas.height == config.height
            &&& canvas@ == composed(
                place_all(empty_matrix(config.rows as int, config.cols as int), entries_of(config, sources@)),
                config.width as int,
                config.height as int,
                (config.width / config.cols) as int,
                (config.height / config.rows) as int,
                config.background_color,
            )
        }),
{
    let (cell_width, cell_height) = crate::grid::cell_size(config.width, config.height, config.rows, config.cols);
    proof {
        vstd::arithmetic::div_mod::lemma_div_is_ordered(config.cols as int, config.width as int, config.cols as int);
        vstd::arithmetic::div_mod::lemma_div_is_ordered(config.rows as int, config.height as int, config.rows as int);
    }
    let ghost entries = entries_of(config, sources@);
    let mut matrix = PlacementMatrix::new(config.rows, config.cols);
    let mut i: usize = 0;
    while i < sources.len()
        invariant
            i <= sources@.len(),
            sources@.len() == config.images@.len(),
            forall|k: int| 0 <= k < sources@.len() ==> (#[trigger] sources@[k]).wf(),
            cell_width == config.width / config.cols,
            cell_height == config.height / config.rows,
            cell_width >= 1,
            cell_height >= 1,
            entries == entries_of(config, sources@),
            matrix.wf(),
            matrix.rows == config.rows,
            matrix.cols == config.cols,
            matrix@ == place_all(empty_matrix(config.rows as int, config.cols as int), entries.subrange(0, i as int)),
            cells_sized(matrix@, cell_width as int, cell_height as int),
            forall|j: int| 0 <= j < i ==> !placement_fails(config, sources@, j),
        decreases sources@.len() - i,
    {
        let cell = match prepare_cell(&sources[i], cell_width, cell_height, config.background_color) {
            Ok(cell) => cell,
            Err(e) => {
                assert(placement_fails(config, sources@, i as int));
                return Err(e);
            },
        };
        let placement = &config.images[i];
        let ghost before = matrix@;
        let ghost cell_view = cell@;
        match matrix.set(placement.row, placement.col, cell) {
            Ok(()) => {},
            Err(e) => {
                proof {
                    assert(before.len() == config.rows + 1);
                    if placement.row <= config.rows {
                        assert(before[placement.row as int].len() == config.cols + 1);
                    }
                    assert(placement_fails(config, sources@, i as int));
                }
                return Err(e);
            },
        }
        proof {
            assert(entries.subrange(0, i + 1).drop_last() =~= entries.subrange(0, i as int));
            assert forall|r: int, c: int| #[trigger] matrix_get(matrix@, r, c) is Some implies is_rect(
                matrix_get(matrix@, r, c)->0,
                cell_width as int,
                cell_height as int,
            ) by {
                if r != placement.row || c != placement.col {
                    assert(matrix_get(matrix@, r, c) == matrix_get(before, r, c));
                }
            }
        }
        i = i + 1;
    }
    assert(entries.subrange(0, i as int) =~= entries);
    Ok(compose(config.width, config.height, cell_width, cell_height, &matrix, config.background_color))
}

} // verus!
