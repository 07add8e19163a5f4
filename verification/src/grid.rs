use vstd::prelude::*;

use crate::cell::CellType;

verus! {

/// Flat position of the coordinate `(row, col)` in a grid whose stride is
/// `width`: row-major, `col + width * row`.
pub open spec fn flat_idx(width: int, row: int, col: int) -> int {
    row * width + col
}

/// An in-bounds coordinate maps to an in-bounds flat position.
pub proof fn lemma_flat_idx_bounds(width: int, height: int, row: int, col: int)
    requires
        0 <= row < height,
        0 <= col < width,
    ensures
        0 <= flat_idx(width, row, col) < width * height,
{
    assert(0 <= row * width + col < width * height) by (nonlinear_arith)
        requires
            0 <= row < height,
            0 <= col < width,
    ;
}

/// Two coordinates with in-bounds columns share a flat position exactly
/// when they are the same coordinate.
pub proof fn lemma_flat_idx_injective(width: int, r1: int, c1: int, r2: int, c2: int)
    requires
        0 <= c1 < width,
        0 <= c2 < width,
    ensures
        flat_idx(width, r1, c1) == flat_idx(width, r2, c2) <==> (r1 == r2 && c1 == c2),
{
    assert((r1 * width + c1 == r2 * width + c2) <==> (r1 == r2 && c1 == c2))
        by (nonlinear_arith)
        requires
            0 <= c1 < width,
            0 <= c2 < width,
    ;
}

/// Every in-bounds flat position is the image of some in-bounds coordinate.
pub proof fn lemma_flat_idx_covers(width: int, height: int, i: int)
    requires
        0 < width,
        0 <= i < width * height,
    ensures
        exists|row: int, col: int|
            0 <= row < height && 0 <= col < width && i == flat_idx(width, row, col),
{
    let row: int = i / width;
    let col: int = i % width;
    assert(0 <= row < height && 0 <= col < width && i == row * width + col)
        by (nonlinear_arith)
        requires
            0 < width,
            0 <= i < width * height,
            row == i / width,
            col == i % width,
    ;
    assert(0 <= row < height && 0 <= col < width && i == flat_idx(width, row, col));
}

/// A fixed-size 2-D field of cells, the sole owner of simulation state.
///
/// The cells sit in a single flat vector of length `width * height`,
/// indexed by [`flat_idx`]; every slot always holds a valid [`CellType`].
pub struct Grid {
    width: usize,
    height: usize,
    cells: Vec<CellType>,
}

impl View for Grid {
    type V = Seq<CellType>;

    closed spec fn view(&self) -> Seq<CellType> {
        self.cells@
    }
}

impl Grid {
    /// The number of columns.
    pub closed spec fn spec_width(self) -> int {
        self.width as int
    }

    /// The number of rows.
    pub closed spec fn spec_height(self) -> int {
        self.height as int
    }

    /// Well-formedness: positive dimensions that fit the machine, and one
    /// cell per coordinate.
    pub open spec fn wf(self) -> bool {
        &&& 0 < self.spec_width()
        &&& 0 < self.spec_height()
        &&& self.spec_width() * self.spec_height() <= usize::MAX
        &&& self@.len() == self.spec_width() * self.spec_height()
    }

    /// A fresh grid of the given dimensions with every cell `Empty`.
    pub fn new(width: usize, height: usize) -> (g: Grid)
        requires
            0 < width,
            0 < height,
            width * height <= usize::MAX,
        ensures
            g.wf(),
            g.spec_width() == width,
            g.spec_height() == height,
            forall|i: int| 0 <= i < g@.len() ==> g@[i] == CellType::Empty,
    {
        let n: usize = width * height;
        let mut cells: Vec<CellType> = Vec::new();
        let mut k: usize = 0;
        while k < n
            invariant
                k <= n,
                cells@.len() == k,
                forall|i: int| 0 <= i < k ==> cells@[i] == CellType::Empty,
            decreases n - k,
        {
            cells.push(CellType::Empty);
            k = k + 1;
        }
        Grid { width, height, cells }
    }

    /// The number of columns.
    pub fn width(&self) -> (w: usize)
        ensures
            w == self.spec_width(),
    {
        self.width
    }

    /// The number of rows.
    pub fn height(&self) -> (h: usize)
        ensures
            h == self.spec_height(),
    {
        self.height
    }

    /// Flat position of an in-bounds coordinate; always a valid index.
    pub fn flat_index(&self, row: usize, col: usize) -> (i: usize)
        requires
            self.wf(),
            row < self.spec_height(),
            col < self.spec_width(),
        ensures
            i == flat_idx(self.spec_width(), row as int, col as int),
            i < self@.len(),
    {
        proof {
            lemma_flat_idx_bounds(self.spec_width(), self.spec_height(), row as int, col as int);
        }
        row * self.width + col
    }

    /// The cell at an in-bounds coordinate.
    pub fn get(&self, row: usize, col: usize) -> (t: CellType)
        requires
            self.wf(),
            row < self.spec_height(),
            col < self.spec_width(),
        ensures
            t == self@[flat_idx(self.spec_width(), row as int, col as int)],
    {
        let i: usize = self.flat_index(row, col);
        self.cells[i]
    }

    /// Overwrites the cell at an in-bounds coordinate, touching nothing else.
    pub fn set(&mut self, row: usize, col: usize, t: CellType)
        requires
            old(self).wf(),
            row < old(self).spec_height(),
            col < old(self).spec_width(),
        ensures
            final(self).wf(),
            final(self).spec_width() == old(self).spec_width(),
            final(self).spec_height() == old(self).spec_height(),
            final(self)@ == old(self)@.update(
                flat_idx(old(self).spec_width(), row as int, col as int),
                t,
            ),
    {
        let i: usize = self.flat_index(row, col);
        self.cells.set(i, t);
    }
}

} // verus!
