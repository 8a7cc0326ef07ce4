use vstd::prelude::*;

use crate::config::Rgba;

verus! {

/// Width and height of one cell: the canvas divided by the grid, truncating.
/// Remainder pixels are not handed out to any cell.
pub fn cell_size(canvas_width: u32, canvas_height: u32, rows: u32, cols: u32) -> (r: (u32, u32))
    requires
        rows >= 1,
        cols >= 1,
    ensures
        r.0 == canvas_width / cols,
        r.1 == canvas_height / rows,
        r.0 * cols <= canvas_width,
        r.1 * rows <= canvas_height,
{
    let r = (canvas_width / cols, canvas_height / rows);
    proof {
        lemma_truncated_cells_fit(canvas_width as int, canvas_height as int, rows as int, cols as int);
    }
    r
}

/// Truncating division never overshoots: the cells of a grid never cover more
/// than the canvas, in either direction.
pub proof fn lemma_truncated_cells_fit(width: int, height: int, rows: int, cols: int)
    requires
        width >= 0,
        height >= 0,
        rows >= 1,
        cols >= 1,
    ensures
        (width / cols) * cols <= width,
        (height / rows) * rows <= height,
{
    vstd::arithmetic::div_mod::lemma_fundamental_div_mod(width, cols);
    vstd::arithmetic::div_mod::lemma_fundamental_div_mod(height, rows);
    vstd::arithmetic::mul::lemma_mul_is_commutative(cols, width / cols);
    vstd::arithmetic::mul::lemma_mul_is_commutative(rows, height / rows);
}

/// A rectangular buffer of pixels, stored row by row.
#[derive(Debug, Clone)]
pub struct PixelBuffer {
    pub width: u32,
    pub height: u32,
    pub pixels: Vec<Vec<Rgba>>,
}

impl View for PixelBuffer {
    type V = Seq<Seq<Rgba>>;

    /// The rows of the buffer, top to bottom; `self@[y][x]` is the pixel at `(x, y)`.
    open spec fn view(&self) -> Seq<Seq<Rgba>> {
        self.pixels@.map_values(|row: Vec<Rgba>| row@)
    }
}

/// Whether `rows` is a rectangle of `width` by `height` pixels.
pub open spec fn is_rect(rows: Seq<Seq<Rgba>>, width: int, height: int) -> bool {
    &&& rows.len() == height
    &&& forall|y: int| 0 <= y < height ==> #[trigger] rows[y].len() == width
}

impl PixelBuffer {
    /// The buffer holds exactly `height` rows of `width` pixels.
    pub open spec fn wf(&self) -> bool {
        is_rect(self@, self.width as int, self.height as int)
    }

    /// A buffer of the given size with every pixel set to `color`.
    pub fn filled(width: u32, height: u32, color: Rgba) -> (r: PixelBuffer)
        ensures
            r.wf(),
            r.width == width,
            r.height == height,
            forall|x: int, y: int| 0 <= x < width && 0 <= y < height ==> #[trigger] r@[y][x] == color,
    {
        let mut pixels: Vec<Vec<Rgba>> = Vec::new();
        let mut y: u32 = 0;
        while y < height
            invariant
                y <= height,
                pixels@.len() == y,
                forall|j: int| 0 <= j < y ==> #[trigger] pixels@[j]@ == Seq::new(width as nat, |x: int| color),
            decreases height - y,
        {
            let mut row: Vec<Rgba> = Vec::new();
            let mut x: u32 = 0;
            while x < width
                invariant
                    x <= width,
                    row@ == Seq::new(x as nat, |i: int| color),
                decreases width - x,
            {
                row.push(color);
                x = x + 1;
                assert(row@ =~= Seq::new(x as nat, |i: int| color));
            }
            pixels.push(row);
            y = y + 1;
        }
        let r = PixelBuffer { width, height, pixels };
        assert forall|x: int, y: int| 0 <= x < width && 0 <= y < height implies #[trigger] r@[y][x] == color by {
            assert(r@[y] == pixels@[y]@);
        }
        r
    }

    /// The pixel at column `x` of row `y`.
    pub fn get_pixel(&self, x: u32, y: u32) -> (r: Rgba)
        requires
            self.wf(),
            x < self.width,
            y < self.height,
        ensures
            r == self@[y as int][x as int],
    {
        assert(self@[y as int] == self.pixels@[y as int]@);
        self.pixels[y as usize][x as usize]
    }
}

/// The slots of a placement matrix: `m[row][col]` is the cell image placed
/// there, if any.
pub type MatrixModel = Seq<Seq<Option<Seq<Seq<Rgba>>>>>;

/// Cell images addressed by grid position. It has one row and one column more
/// than the grid, so that the trailing strip of canvas pixels that truncating
/// division leaves over resolves to a real (normally empty) slot.
pub struct PlacementMatrix {
    pub rows: u32,
    pub cols: u32,
    pub cells: Vec<Vec<Option<PixelBuffer>>>,
}

/// The matrix model of a grid with `rows` by `cols` cells: all slots empty.
pub open spec fn empty_matrix(rows: int, cols: int) -> MatrixModel {
    Seq::new((rows + 1) as nat, |r: int| Seq::new((cols + 1) as nat, |c: int| None::<Seq<Seq<Rgba>>>))
}

/// The model after placing `image` at `(row, col)`, when that slot exists.
pub open spec fn matrix_set(m: MatrixModel, row: int, col: int, image: Seq<Seq<Rgba>>) -> MatrixModel {
    if in_matrix(m, row, col) {
        m.update(row, m[row].update(col, Some(image)))
    } else {
        m
    }
}

/// Whether `(row, col)` addresses a slot of `m`.
pub open spec fn in_matrix(m: MatrixModel, row: int, col: int) -> bool {
    0 <= row < m.len() && 0 <= col < m[row].len()
}

/// What the slot `(row, col)` holds; nothing outside the matrix.
pub open spec fn matrix_get(m: MatrixModel, row: int, col: int) -> Option<Seq<Seq<Rgba>>> {
    if in_matrix(m, row, col) {
        m[row][col]
    } else {
        None
    }
}

/// Every image placed in `m` is a cell of `width` by `height` pixels.
pub open spec fn cells_sized(m: MatrixModel, width: int, height: int) -> bool {
    forall|r: int, c: int|
        #[trigger] matrix_get(m, r, c) is Some ==> is_rect(matrix_get(m, r, c)->0, width, height)
}

/// The pixel that the canvas shows at `(x, y)`: that of the cell which owns the
/// position, or the background where no image was placed there.
pub open spec fn composed_pixel(
    m: MatrixModel,
    cell_width: int,
    cell_height: int,
    background: Rgba,
    x: int,
    y: int,
) -> Rgba {
    match matrix_get(m, y / cell_height, x / cell_width) {
        Some(image) => image[y % cell_height][x % cell_width],
        None => background,
    }
}

/// The whole canvas that the compositor produces.
pub open spec fn composed(
    m: MatrixModel,
    width: int,
    height: int,
    cell_width: int,
    cell_height: int,
    background: Rgba,
) -> Seq<Seq<Rgba>> {
    Seq::new(
        height as nat,
        |y: int| Seq::new(width as nat, |x: int| composed_pixel(m, cell_width, cell_height, background, x, y)),
    )
}

impl View for PlacementMatrix {
    type V = MatrixModel;

    open spec fn view(&self) -> MatrixModel {
        self.cells@.map_values(
            |row: Vec<Option<PixelBuffer>>|
                row@.map_values(
                    |slot: Option<PixelBuffer>|
                        match slot {
                            Some(image) => Some(image@),
                            None => None,
                        },
                ),
        )
    }
}

impl PlacementMatrix {
    /// `rows + 1` rows of `cols + 1` slots, and every image in it well formed.
    pub open spec fn wf(&self) -> bool {
        &&& self.cells@.len() == self.rows + 1
        &&& forall|r: int| 0 <= r <= self.rows ==> #[trigger] self.cells@[r]@.len() == self.cols + 1
        &&& forall|r: int, c: int|
            0 <= r <= self.rows && 0 <= c <= self.cols && #[trigger] self.cells@[r]@[c] is Some
                ==> self.cells@[r]@[c]->0.wf()
    }

    /// An empty matrix for a grid of `rows` by `cols` cells.
    pub fn new(rows: u32, cols: u32) -> (r: PlacementMatrix)
        requires
            rows < u32::MAX,
            cols < u32::MAX,
        ensures
            r.wf(),
            r.rows == rows,
            r.cols == cols,
            r@ == empty_matrix(rows as int, cols as int),
    {
        let mut cells: Vec<Vec<Option<PixelBuffer>>> = Vec::new();
        let mut i: u32 = 0;
        while i <= rows
            invariant
                i <= rows + 1,
                rows < u32::MAX,
                cols < u32::MAX,
                cells@.len() == i,
                forall|j: int| 0 <= j < i ==> #[trigger] cells@[j]@.len() == cols + 1,
                forall|j: int, c: int| 0 <= j < i && 0 <= c <= cols ==> #[trigger] cells@[j]@[c] is None,
            decreases rows + 1 - i,
        {
            let mut row: Vec<Option<PixelBuffer>> = Vec::new();
            let mut k: u32 = 0;
            while k <= cols
                invariant
                    k <= cols + 1,
                    cols < u32::MAX,
                    row@.len() == k,
                    forall|c: int| 0 <= c < k ==> #[trigger] row@[c] is None,
                decreases cols + 1 - k,
            {
                row.push(None);
                k = k + 1;
            }
            cells.push(row);
            i = i + 1;
        }
        let r = PlacementMatrix { rows, cols, cells };
        assert(r@ =~= empty_matrix(rows as int, cols as int)) by {
            assert forall|j: int| 0 <= j <= rows implies #[trigger] r@[j] =~= empty_matrix(rows as int, cols as int)[j] by {
                assert(r@[j] =~= Seq::new((cols + 1) as nat, |c: int| None::<Seq<Seq<Rgba>>>));
            }
        }
        r
    }

    /// Places `image` at `(row, col)`, replacing what was there. A position
    /// outside the matrix is refused and leaves it unchanged.
    pub fn set(&mut self, row: usize, col: usize, image: PixelBuffer) -> (r: Result<(), crate::error::AppError>)
        requires
            old(self).wf(),
            image.wf(),
        ensures
            final(self).wf(),
            final(self).rows == old(self).rows,
            final(self).cols == old(self).cols,
            r is Ok <==> in_matrix(old(self)@, row as int, col as int),
            r is Err ==> r->Err_0 == crate::error::AppError::CellOutOfRangeError,
            final(self)@ == matrix_set(old(self)@, row as int, col as int, image@),
    {
        if row > self.rows as usize || col > self.cols as usize {
            return Err(crate::error::AppError::CellOutOfRangeError);
        }
        let ghost before = self@;
        let ghost image_view = image@;
        let mut taken: Vec<Option<PixelBuffer>> = Vec::new();
        std::mem::swap(&mut taken, &mut self.cells[row]);
        taken.set(col, Some(image));
        std::mem::swap(&mut taken, &mut self.cells[row]);
        assert(self@ =~= matrix_set(before, row as int, col as int, image_view)) by {
            assert(self@[row as int] =~= before[row as int].update(col as int, Some(image_view)));
        }
        Ok(())
    }

    /// The image placed at `(row, col)`; nothing for an empty slot or a
    /// position outside the matrix.
    pub fn get(&self, row: usize, col: usize) -> (r: Option<&PixelBuffer>)
        requires
            self.wf(),
        ensures
            r is Some <==> matrix_get(self@, row as int, col as int) is Some,
            r is Some ==> r->0.wf() && Some(r->0@) == matrix_get(self@, row as int, col as int),
    {
        if row > self.rows as usize || col > self.cols as usize {
            return None;
        }
        match &self.cells[row][col] {
            Some(image) => Some(image),
            None => None,
        }
    }
}

/// Paints the canvas: each pixel copies the pixel of the cell that owns it, or
/// takes the background colour where that cell is empty.
pub fn compose(
    canvas_width: u32,
    canvas_height: u32,
    cell_width: u32,
    cell_height: u32,
    matrix: &PlacementMatrix,
    background: Rgba,
) -> (r: PixelBuffer)
    requires
        cell_width >= 1,
        cell_height >= 1,
        matrix.wf(),
        cells_sized(matrix@, cell_width as int, cell_height as int),
    ensures
        r.wf(),
        r.width == canvas_width,
        r.height == canvas_height,
        r@ == composed(matrix@, canvas_width as int, canvas_height as int, cell_width as int, cell_height as int, background),
{
    let ghost target = composed(matrix@, canvas_width as int, canvas_height as int, cell_width as int, cell_height as int, background);
    let mut pixels: Vec<Vec<Rgba>> = Vec::new();
    let mut y: u32 = 0;
    while y < canvas_height
        invariant
            y <= canvas_height,
            cell_width >= 1,
            cell_height >= 1,
            matrix.wf(),
            cells_sized(matrix@, cell_width as int, cell_height as int),
            pixels@.len() == y,
            target == composed(matrix@, canvas_width as int, canvas_height as int, cell_width as int, cell_height as int, background),
            forall|j: int| 0 <= j < y ==> #[trigger] pixels@[j]@ == target[j],
        decreases canvas_height - y,
    {
        let img_row = y / cell_height;
        let local_y = y % cell_height;
        let mut row: Vec<Rgba> = Vec::new();
        let mut x: u32 = 0;
        while x < canvas_width
            invariant
                y < canvas_height,
                x <= canvas_width,
                cell_width >= 1,
                cell_height >= 1,
                img_row == y / cell_height,
                local_y == y % cell_height,
                matrix.wf(),
                cells_sized(matrix@, cell_width as int, cell_height as int),
                row@.len() == x,
                target == composed(matrix@, canvas_width as int, canvas_height as int, cell_width as int, cell_height as int, background),
                forall|i: int| 0 <= i < x ==> #[trigger] row@[i] == target[y as int][i],
            decreases canvas_width - x,
        {
            let img_col = x / cell_width;
            let pixel = match matrix.get(img_row as usize, img_col as usize) {
                Some(image) => {
                    let local_x = x % cell_width;
                    assert(matrix_get(matrix@, img_row as int, img_col as int) is Some);
                    assert(image@[local_y as int].len() == cell_width);
                    image.get_pixel(local_x, local_y)
                },
                None => background,
            };
            assert(target[y as int][x as int] == composed_pixel(matrix@, cell_width as int, cell_height as int, background, x as int, y as int));
            assert(pixel == target[y as int][x as int]);
            row.push(pixel);
            x = x + 1;
        }
        assert(row@ =~= target[y as int]);
        pixels.push(row);
        y = y + 1;
    }
    let r = PixelBuffer { width: canvas_width, height: canvas_height, pixels };
    assert(r@ =~= target) by {
        assert forall|j: int| 0 <= j < canvas_height implies #[trigger] r@[j] =~= target[j] by {
            assert(r@[j] == pixels@[j]@);
        }
    }
    r
}

/// Composing is a function of the matrix, the geometry and the background:
/// two canvases that the compositor produced from the same inputs are equal.
pub proof fn lemma_compose_deterministic(
    first: Seq<Seq<Rgba>>,
    second: Seq<Seq<Rgba>>,
    m: MatrixModel,
    width: int,
    height: int,
    cell_width: int,
    cell_height: int,
    background: Rgba,
)
    requires
        first == composed(m, width, height, cell_width, cell_height, background),
        second == composed(m, width, height, cell_width, cell_height, background),
    ensures
        first == second,
{
}

} // verus!
