use vstd::prelude::*;

use crate::cell::CellType;
use crate::grid::{flat_idx, lemma_flat_idx_bounds, lemma_flat_idx_injective, Grid};

verus! {

/// True when `(row, col)` lies in the 3-by-3 brush centred at
/// `(center_row, center_col)`.
pub open spec fn in_brush(center_row: int, center_col: int, row: int, col: int) -> bool {
    &&& center_row - 1 <= row <= center_row + 1
    &&& center_col - 1 <= col <= center_col + 1
}

/// One stroke of the brush: overwrites a single in-bounds coordinate and
/// leaves every other coordinate as it was.
fn brush_set(grid: &mut Grid, row: usize, col: usize, t: CellType)
    requires
        old(grid).wf(),
        row < old(grid).spec_height(),
        col < old(grid).spec_width(),
    ensures
        final(grid).wf(),
        final(grid).spec_width() == old(grid).spec_width(),
        final(grid).spec_height() == old(grid).spec_height(),
        forall|r2: int, c2: int|
            0 <= r2 < old(grid).spec_height() && 0 <= c2 < old(grid).spec_width()
                ==> final(grid)@[flat_idx(old(grid).spec_width(), r2, c2)] == (
            if r2 == row && c2 == col {
                t
            } else {
                old(grid)@[flat_idx(old(grid).spec_width(), r2, c2)]
            }),
{
    let ghost w: int = grid.spec_width();
    let ghost h: int = grid.spec_height();
    let ghost g0: Seq<CellType> = grid@;
    grid.set(row, col, t);
    proof {
        assert forall|r2: int, c2: int| 0 <= r2 < h && 0 <= c2 < w implies grid@[flat_idx(
            w,
            r2,
            c2,
        )] == (if r2 == row && c2 == col {
            t
        } else {
            g0[flat_idx(w, r2, c2)]
        }) by {
            lemma_flat_idx_bounds(w, h, r2, c2);
            lemma_flat_idx_bounds(w, h, row as int, col as int);
            lemma_flat_idx_injective(w, r2, c2, row as int, col as int);
            assert(grid@ == g0.update(flat_idx(w, row as int, col as int), t));
        }
    }
}

/// Writes `t` into the 3-by-3 neighbourhood centred at an in-bounds
/// coordinate. Each of the nine writes is bounds-checked on its own and
/// silently skipped when it falls outside the grid, so a brush stroke at
/// an edge or corner paints only the in-bounds subset and never fails.
pub fn paint(grid: &mut Grid, center_row: usize, center_col: usize, t: CellType)
    requires
        old(grid).wf(),
        center_row < old(grid).spec_height(),
        center_col < old(grid).spec_width(),
    ensures
        final(grid).wf(),
        final(grid).spec_width() == old(grid).spec_width(),
        final(grid).spec_height() == old(grid).spec_height(),
        forall|row: int, col: int|
            0 <= row < old(grid).spec_height() && 0 <= col < old(grid).spec_width()
                ==> final(grid)@[flat_idx(old(grid).spec_width(), row, col)] == (
            if in_brush(center_row as int, center_col as int, row, col) {
                t
            } else {
                old(grid)@[flat_idx(old(grid).spec_width(), row, col)]
            }),
{
    let width: usize = grid.width();
    let height: usize = grid.height();
    let cr: usize = center_row;
    let cc: usize = center_col;
    brush_set(grid, cr, cc, t);
    if cr > 0 {
        brush_set(grid, cr - 1, cc, t);
        if cc > 0 {
            brush_set(grid, cr - 1, cc - 1, t);
        }
        if cc + 1 < width {
            brush_set(grid, cr - 1, cc + 1, t);
        }
    }
    if cr + 1 < height {
        brush_set(grid, cr + 1, cc, t);
        if cc > 0 {
            brush_set(grid, cr + 1, cc - 1, t);
        }
        if cc + 1 < width {
            brush_set(grid, cr + 1, cc + 1, t);
        }
    }
    if cc > 0 {
        brush_set(grid, cr, cc - 1, t);
    }
    if cc + 1 < width {
        brush_set(grid, cr, cc + 1, t);
    }
}

/// Resolves a pointer position to the grid coordinate a paint stroke
/// targets. The inputs are the pointer's world position divided by the
/// cell size and rounded towards negative infinity; the coordinate is
/// that offset shifted by half the grid plus one, and it is returned
/// only when it lands inside the grid.
pub fn resolve_pointer(cell_y: i64, cell_x: i64, width: usize, height: usize) -> (r: Option<
    (usize, usize),
>)
    ensures
        ({
            let row = cell_y + height as int / 2 + 1;
            let col = cell_x + width as int / 2 + 1;
            if 0 <= row < height && 0 <= col < width {
                r == Some((row as usize, col as usize))
            } else {
                r is None
            }
        }),
{
    let row: i128 = cell_y as i128 + (height / 2) as i128 + 1;
    let col: i128 = cell_x as i128 + (width / 2) as i128 + 1;
    if 0 <= row && row < height as i128 && 0 <= col && col < width as i128 {
        Some((row as usize, col as usize))
    } else {
        None
    }
}

} // verus!
