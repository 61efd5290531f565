//! The boolean grid of the button matrix and its decoder.
use vstd::prelude::*;

verus! {

/// Width of the deployed matrix, in cells.
pub const ROWS: usize = 11;

/// Height of the deployed matrix, in cells.
pub const COLS: usize = 9;

/// Largest accepted side of a matrix: coordinates travel as 16-bit values.
pub const MAX_SIDE: usize = 65535;

/// The byte that marks a pressed cell on the wire.
pub const PRESSED: u8 = 0x31;

/// Why a matrix could not be built.
#[derive(Debug, Clone, Copy, PartialEq, Eq, Structural)]
pub enum MatrixError {
    /// A side is zero or larger than `MAX_SIDE`.
    BadDimensions,
    /// The number of cells given is not `width * height`.
    LengthMismatch,
}

/// A `width` x `height` grid of cells, stored row-major: cell `(x, y)` is
/// `elems[x + y * width]`.
#[derive(Debug, Clone)]
pub struct Matrix {
    width: usize,
    height: usize,
    elems: Vec<bool>,
}

/// Whether dimensions are acceptable for a matrix.
pub open spec fn valid_dims(width: int, height: int) -> bool {
    0 < width <= MAX_SIDE && 0 < height <= MAX_SIDE
}

/// Row-major offset of cell `(x, y)`.
pub open spec fn offset(width: int, x: int, y: int) -> int {
    x + y * width
}

/// What a wire byte decodes to.
pub open spec fn decodes_pressed(b: u8) -> bool {
    b == PRESSED
}

/// Whether every cell of a grid is released.
pub open spec fn all_released(cells: Seq<bool>) -> bool {
    forall|i: int| 0 <= i < cells.len() ==> !cells[i]
}

/// A cell inside the grid has an offset inside the grid.
pub proof fn lemma_offset_in_bounds(width: int, height: int, x: int, y: int)
    requires
        0 <= x < width,
        0 <= y < height,
    ensures
        0 <= x + y * width < width * height,
        0 <= y * width,
{
    assert(y * width <= (height - 1) * width) by (nonlinear_arith)
        requires
            0 <= y < height,
            0 < width,
    ;
    assert((height - 1) * width == width * height - width) by (nonlinear_arith);
    assert(0 <= y * width) by (nonlinear_arith)
        requires
            0 <= y,
            0 < width,
    ;
}

/// The number of cells of a matrix with valid dimensions fits a `usize`.
pub proof fn lemma_area_fits(width: int, height: int)
    requires
        valid_dims(width, height),
    ensures
        width * height <= MAX_SIDE * MAX_SIDE,
{
    assert(width * height <= MAX_SIDE * MAX_SIDE) by (nonlinear_arith)
        requires
            0 < width <= MAX_SIDE,
            0 < height <= MAX_SIDE,
    ;
}

impl Matrix {
    pub closed spec fn spec_width(&self) -> int {
        self.width as int
    }

    pub closed spec fn spec_height(&self) -> int {
        self.height as int
    }

    /// The cells, row-major.
    pub closed spec fn cells(&self) -> Seq<bool> {
        self.elems@
    }

    pub open spec fn wf(&self) -> bool {
        &&& valid_dims(self.spec_width(), self.spec_height())
        &&& self.cells().len() == self.spec_width() * self.spec_height()
    }

    /// Cell `(x, y)` in the model.
    pub open spec fn cell(&self, x: int, y: int) -> bool {
        self.cells()[offset(self.spec_width(), x, y)]
    }

    /// A matrix of the given dimensions from its cells, row-major.
    pub fn new(width: usize, height: usize, elems: Vec<bool>) -> (r: Result<Matrix, MatrixError>)
        ensures
            !valid_dims(width as int, height as int) ==> r == Err::<Matrix, MatrixError>(
                MatrixError::BadDimensions,
            ),
            valid_dims(width as int, height as int) && elems@.len() != width * height ==> r
                == Err::<Matrix, MatrixError>(MatrixError::LengthMismatch),
            valid_dims(width as int, height as int) && elems@.len() == width * height ==> (r
                matches Ok(m) && m.wf() && m.spec_width() == width && m.spec_height() == height
                && m.cells() == elems@),
    {
        if width == 0 || width > MAX_SIDE || height == 0 || height > MAX_SIDE {
            return Err(MatrixError::BadDimensions);
        }
        proof {
            lemma_area_fits(width as int, height as int);
        }
        if elems.len() != width * height {
            return Err(MatrixError::LengthMismatch);
        }
        Ok(Matrix { width, height, elems })
    }

    /// The matrix of the given dimensions with every cell released.
    pub fn released(width: usize, height: usize) -> (r: Matrix)
        requires
            valid_dims(width as int, height as int),
        ensures
            r.wf(),
            r.spec_width() == width,
            r.spec_height() == height,
            all_released(r.cells()),
    {
        proof {
            lemma_area_fits(width as int, height as int);
        }
        let n = width * height;
        let mut elems: Vec<bool> = Vec::new();
        let mut i: usize = 0;
        while i < n
            invariant
                i <= n,
                elems@.len() == i,
                all_released(elems@),
            decreases n - i,
        {
            elems.push(false);
            i = i + 1;
        }
        Matrix { width, height, elems }
    }

    /// Decodes a frame: cell `(x, y)` is pressed iff the byte at offset
    /// `x + y * width` is the ASCII digit one.
    pub fn decode(width: usize, height: usize, buf: &[u8]) -> (r: Matrix)
        requires
            valid_dims(width as int, height as int),
            buf@.len() == width * height,
        ensures
            r.wf(),
            r.spec_width() == width,
            r.spec_height() == height,
            r.cells() == buf@.map_values(|b: u8| decodes_pressed(b)),
    {
        let mut elems: Vec<bool> = Vec::new();
        let mut i: usize = 0;
        while i < buf.len()
            invariant
                i <= buf@.len(),
                elems@ == buf@.subrange(0, i as int).map_values(|b: u8| decodes_pressed(b)),
            decreases buf@.len() - i,
        {
            elems.push(buf[i] == PRESSED);
            i = i + 1;
            assert(elems@ =~= buf@.subrange(0, i as int).map_values(|b: u8| decodes_pressed(b)));
        }
        assert(buf@.subrange(0, buf@.len() as int) =~= buf@);
        Matrix { width, height, elems }
    }

    /// Cell `(x, y)`: true when pressed.
    pub fn get(&self, x: usize, y: usize) -> (r: bool)
        requires
            self.wf(),
            x < self.spec_width(),
            y < self.spec_height(),
        ensures
            r == self.cell(x as int, y as int),
    {
        proof {
            lemma_offset_in_bounds(self.width as int, self.height as int, x as int, y as int);
            lemma_area_fits(self.width as int, self.height as int);
        }
        self.elems[x + y * self.width]
    }

    pub fn width(&self) -> (r: usize)
        ensures
            r == self.spec_width(),
    {
        self.width
    }

    pub fn height(&self) -> (r: usize)
        ensures
            r == self.spec_height(),
    {
        self.height
    }

    /// True iff every cell is released.
    pub fn empty(&self) -> (r: bool)
        ensures
            r == all_released(self.cells()),
    {
        let mut b = true;
        let mut i: usize = 0;
        while i < self.elems.len()
            invariant
                i <= self.elems@.len(),
                b == (forall|j: int| 0 <= j < i ==> !self.elems@[j]),
            decreases self.elems@.len() - i,
        {
            b = b && !self.elems[i];
            i = i + 1;
        }
        b
    }
}

} // verus!
