use vstd::prelude::*;

use crate::cell::CellType;
use crate::grid::{flat_idx, Grid};

verus! {

/// The grid with the contents of two slots exchanged.
///
/// Every movement the engine makes is such an exchange: sand swaps with
/// the water or empty slot it sinks into, and water or smoke moving into
/// an empty slot leaves emptiness behind, which is the same exchange.
pub open spec fn swap_cells(g: Seq<CellType>, i: int, j: int) -> Seq<CellType> {
    g.update(i, g[j]).update(j, g[i])
}

/// One sand cell's action: sink straight down into an empty or water
/// slot, else down-left, else down-right, else stay. The first match in
/// that fixed priority wins; a candidate outside the grid is skipped.
pub open spec fn sand_step(
    g: Seq<CellType>,
    width: int,
    height: int,
    row: int,
    col: int,
) -> Seq<CellType> {
    if row > 0 {
        if g[flat_idx(width, row - 1, col)].displaceable() {
            swap_cells(g, flat_idx(width, row, col), flat_idx(width, row - 1, col))
        } else if col > 0 && g[flat_idx(width, row - 1, col - 1)].displaceable() {
            swap_cells(g, flat_idx(width, row, col), flat_idx(width, row - 1, col - 1))
        } else if col < width - 1 && g[flat_idx(width, row - 1, col + 1)].displaceable() {
            swap_cells(g, flat_idx(width, row, col), flat_idx(width, row - 1, col + 1))
        } else {
            g
        }
    } else {
        g
    }
}

/// One water cell's action: flow into the first empty slot among down,
/// down-left, down-right, left, right, else stay. The flag reports a
/// rightward flow, after which the row scan skips the column the water
/// just entered so the same cell is not moved twice in one tick.
pub open spec fn water_step(
    g: Seq<CellType>,
    width: int,
    height: int,
    row: int,
    col: int,
) -> (Seq<CellType>, bool) {
    if row > 0 && g[flat_idx(width, row - 1, col)] == CellType::Empty {
        (swap_cells(g, flat_idx(width, row, col), flat_idx(width, row - 1, col)), false)
    } else if row > 0 && col > 0 && g[flat_idx(width, row - 1, col - 1)] == CellType::Empty {
        (swap_cells(g, flat_idx(width, row, col), flat_idx(width, row - 1, col - 1)), false)
    } else if row > 0 && col < width - 1 && g[flat_idx(width, row - 1, col + 1)]
        == CellType::Empty {
        (swap_cells(g, flat_idx(width, row, col), flat_idx(width, row - 1, col + 1)), false)
    } else if col > 0 && g[flat_idx(width, row, col - 1)] == CellType::Empty {
        (swap_cells(g, flat_idx(width, row, col), flat_idx(width, row, col - 1)), false)
    } else if col < width - 1 && g[flat_idx(width, row, col + 1)] == CellType::Empty {
        (swap_cells(g, flat_idx(width, row, col), flat_idx(width, row, col + 1)), true)
    } else {
        (g, false)
    }
}

/// One smoke cell's action, the mirror image of water: rise into the
/// first empty slot among up, up-left, up-right, left, right, else stay.
/// A smoke cell on the top row does nothing at all. The flag reports a
/// rightward drift, with the same column skip as water.
pub open spec fn smoke_step(
    g: Seq<CellType>,
    width: int,
    height: int,
    row: int,
    col: int,
) -> (Seq<CellType>, bool) {
    if row < height - 1 {
        if g[flat_idx(width, row + 1, col)] == CellType::Empty {
            (swap_cells(g, flat_idx(width, row, col), flat_idx(width, row + 1, col)), false)
        } else if col > 0 && g[flat_idx(width, row + 1, col - 1)] == CellType::Empty {
            (swap_cells(g, flat_idx(width, row, col), flat_idx(width, row + 1, col - 1)), false)
        } else if col < width - 1 && g[flat_idx(width, row + 1, col + 1)] == CellType::Empty {
            (swap_cells(g, flat_idx(width, row, col), flat_idx(width, row + 1, col + 1)), false)
        } else if col > 0 && g[flat_idx(width, row, col - 1)] == CellType::Empty {
            (swap_cells(g, flat_idx(width, row, col), flat_idx(width, row, col - 1)), false)
        } else if col < width - 1 && g[flat_idx(width, row, col + 1)] == CellType::Empty {
            (swap_cells(g, flat_idx(width, row, col), flat_idx(width, row, col + 1)), true)
        } else {
            (g, false)
        }
    } else {
        (g, false)
    }
}

/// What the falling pass does at one coordinate: sand sinks, water flows,
/// everything else stays. The flag is water's column skip.
pub open spec fn pass1_cell(
    g: Seq<CellType>,
    width: int,
    height: int,
    row: int,
    col: int,
) -> (Seq<CellType>, bool) {
    match g[flat_idx(width, row, col)] {
        CellType::Sand => (sand_step(g, width, height, row, col), false),
        CellType::Water => water_step(g, width, height, row, col),
        _ => (g, false),
    }
}

/// What the rising pass does at one coordinate: only smoke moves.
pub open spec fn pass2_cell(
    g: Seq<CellType>,
    width: int,
    height: int,
    row: int,
    col: int,
) -> (Seq<CellType>, bool) {
    match g[flat_idx(width, row, col)] {
        CellType::Smoke => smoke_step(g, width, height, row, col),
        _ => (g, false),
    }
}

/// The falling pass over one row from column `col` rightwards; a cell
/// that flowed right makes the scan skip the column it entered.
pub open spec fn pass1_row_from(
    g: Seq<CellType>,
    width: int,
    height: int,
    row: int,
    col: int,
) -> Seq<CellType>
    decreases width - col,
{
    if col < 0 || col >= width {
        g
    } else {
        let r = pass1_cell(g, width, height, row, col);
        let next = if r.1 && col + 2 <= width {
            col + 2
        } else {
            col + 1
        };
        pass1_row_from(r.0, width, height, row, next)
    }
}

/// The falling pass over the rows `row`, `row + 1`, ... up to the top:
/// rows are scanned bottom-to-top, columns left-to-right.
pub open spec fn pass1_from_row(
    g: Seq<CellType>,
    width: int,
    height: int,
    row: int,
) -> Seq<CellType>
    decreases height - row,
{
    if row < 0 || row >= height {
        g
    } else {
        pass1_from_row(pass1_row_from(g, width, height, row, 0), width, height, row + 1)
    }
}

/// The rising pass over one row from column `col` rightwards, with the
/// same column skip after a rightward drift.
pub open spec fn pass2_row_from(
    g: Seq<CellType>,
    width: int,
    height: int,
    row: int,
    col: int,
) -> Seq<CellType>
    decreases width - col,
{
    if col < 0 || col >= width {
        g
    } else {
        let r = pass2_cell(g, width, height, row, col);
        let next = if r.1 && col + 2 <= width {
            col + 2
        } else {
            col + 1
        };
        pass2_row_from(r.0, width, height, row, next)
    }
}

/// The rising pass over the rows `row`, `row - 1`, ... down to the
/// bottom: rows are scanned top-to-bottom, columns left-to-right.
pub open spec fn pass2_down_from(
    g: Seq<CellType>,
    width: int,
    height: int,
    row: int,
) -> Seq<CellType>
    decreases row + 1,
{
    if row < 0 {
        g
    } else {
        pass2_down_from(pass2_row_from(g, width, height, row, 0), width, height, row - 1)
    }
}

/// One whole tick: the falling pass over every row bottom-to-top, then
/// the rising pass over every row top-to-bottom.
pub open spec fn step_spec(g: Seq<CellType>, width: int, height: int) -> Seq<CellType> {
    pass2_down_from(pass1_from_row(g, width, height, 0), width, height, height - 1)
}

/// Exchanges the cells at two in-bounds coordinates.
fn swap_at(grid: &mut Grid, r1: usize, c1: usize, r2: usize, c2: usize)
    requires
        old(grid).wf(),
        r1 < old(grid).spec_height(),
        c1 < old(grid).spec_width(),
        r2 < old(grid).spec_height(),
        c2 < old(grid).spec_width(),
    ensures
        final(grid).wf(),
        final(grid).spec_width() == old(grid).spec_width(),
        final(grid).spec_height() == old(grid).spec_height(),
        final(grid)@ == swap_cells(
            old(grid)@,
            flat_idx(old(grid).spec_width(), r1 as int, c1 as int),
            flat_idx(old(grid).spec_width(), r2 as int, c2 as int),
        ),
{
    let a: CellType = grid.get(r1, c1);
    let b: CellType = grid.get(r2, c2);
    grid.set(r1, c1, b);
    grid.set(r2, c2, a);
}

/// Applies [`sand_step`] at one coordinate of the grid.
fn sand_fall(grid: &mut Grid, row: usize, col: usize)
    requires
        old(grid).wf(),
        row < old(grid).spec_height(),
        col < old(grid).spec_width(),
    ensures
        final(grid).wf(),
        final(grid).spec_width() == old(grid).spec_width(),
        final(grid).spec_height() == old(grid).spec_height(),
        final(grid)@ == sand_step(
            old(grid)@,
            old(grid).spec_width(),
            old(grid).spec_height(),
            row as int,
            col as int,
        ),
{
    let width: usize = grid.width();
    if row > 0 {
        let below: CellType = grid.get(row - 1, col);
        if below == CellType::Empty || below == CellType::Water {
            swap_at(grid, row, col, row - 1, col);
        } else {
            let mut moved: bool = false;
            if col > 0 {
                let down_left: CellType = grid.get(row - 1, col - 1);
                if down_left == CellType::Empty || down_left == CellType::Water {
                    swap_at(grid, row, col, row - 1, col - 1);
                    moved = true;
                }
            }
            if !moved && col + 1 < width {
                let down_right: CellType = grid.get(row - 1, col + 1);
                if down_right == CellType::Empty || down_right == CellType::Water {
                    swap_at(grid, row, col, row - 1, col + 1);
                }
            }
        }
    }
}

/// Applies [`water_step`] at one coordinate of the grid; the result says
/// whether the scan must skip the next column.
fn water_flow(grid: &mut Grid, row: usize, col: usize) -> (skip: bool)
    requires
        old(grid).wf(),
        row < old(grid).spec_height(),
        col < old(grid).spec_width(),
    ensures
        final(grid).wf(),
        final(grid).spec_width() == old(grid).spec_width(),
        final(grid).spec_height() == old(grid).spec_height(),
        final(grid)@ == water_step(
            old(grid)@,
            old(grid).spec_width(),
            old(grid).spec_height(),
            row as int,
            col as int,
        ).0,
        skip == water_step(
            old(grid)@,
            old(grid).spec_width(),
            old(grid).spec_height(),
            row as int,
            col as int,
        ).1,
{
    let width: usize = grid.width();
    if row > 0 && grid.get(row - 1, col) == CellType::Empty {
        swap_at(grid, row, col, row - 1, col);
        false
    } else if row > 0 && col > 0 && grid.get(row - 1, col - 1) == CellType::Empty {
        swap_at(grid, row, col, row - 1, col - 1);
        false
    } else if row > 0 && col + 1 < width && grid.get(row - 1, col + 1) == CellType::Empty {
        swap_at(grid, row, col, row - 1, col + 1);
        false
    } else if col > 0 && grid.get(row, col - 1) == CellType::Empty {
        swap_at(grid, row, col, row, col - 1);
        false
    } else if col + 1 < width && grid.get(row, col + 1) == CellType::Empty {
        swap_at(grid, row, col, row, col + 1);
        true
    } else {
        false
    }
}

/// Applies [`smoke_step`] at one coordinate of the grid; the result says
/// whether the scan must skip the next column.
fn smoke_rise(grid: &mut Grid, row: usize, col: usize) -> (skip: bool)
    requires
        old(grid).wf(),
        row < old(grid).spec_height(),
        col < old(grid).spec_width(),
    ensures
        final(grid).wf(),
        final(grid).spec_width() == old(grid).spec_width(),
        final(grid).spec_height() == old(grid).spec_height(),
        final(grid)@ == smoke_step(
            old(grid)@,
            old(grid).spec_width(),
            old(grid).spec_height(),
            row as int,
            col as int,
        ).0,
        skip == smoke_step(
            old(grid)@,
            old(grid).spec_width(),
            old(grid).spec_height(),
            row as int,
            col as int,
        ).1,
{
    let width: usize = grid.width();
    let height: usize = grid.height();
    if row + 1 < height {
        if grid.get(row + 1, col) == CellType::Empty {
            swap_at(grid, row, col, row + 1, col);
            false
        } else if col > 0 && grid.get(row + 1, col - 1) == CellType::Empty {
            swap_at(grid, row, col, row + 1, col - 1);
            false
        } else if col + 1 < width && grid.get(row + 1, col + 1) == CellType::Empty {
            swap_at(grid, row, col, row + 1, col + 1);
            false
        } else if col > 0 && grid.get(row, col - 1) == CellType::Empty {
            swap_at(grid, row, col, row, col - 1);
            false
        } else if col + 1 < width && grid.get(row, col + 1) == CellType::Empty {
            swap_at(grid, row, col, row, col + 1);
            true
        } else {
            false
        }
    } else {
        false
    }
}

/// The falling pass over the whole grid, rows bottom-to-top.
#[verifier::loop_isolation(false)]
fn fall_pass(grid: &mut Grid)
    requires
        old(grid).wf(),
    ensures
        final(grid).wf(),
        final(grid).spec_width() == old(grid).spec_width(),
        final(grid).spec_height() == old(grid).spec_height(),
        final(grid)@ == pass1_from_row(
            old(grid)@,
            old(grid).spec_width(),
            old(grid).spec_height(),
            0,
        ),
{
    let width: usize = grid.width();
    let height: usize = grid.height();
    let ghost w: int = grid.spec_width();
    let ghost h: int = grid.spec_height();
    let ghost g0: Seq<CellType> = grid@;
    let mut row: usize = 0;
    while row < height
        invariant
            grid.wf(),
            grid.spec_width() == w,
            grid.spec_height() == h,
            row <= height,
            pass1_from_row(grid@, w, h, row as int) == pass1_from_row(g0, w, h, 0),
        decreases height - row,
    {
        let ghost g_row: Seq<CellType> = grid@;
        let mut col: usize = 0;
        while col < width
            invariant
                grid.wf(),
                grid.spec_width() == w,
                grid.spec_height() == h,
                col <= width,
                row < height,
                pass1_row_from(grid@, w, h, row as int, col as int) == pass1_row_from(
                    g_row,
                    w,
                    h,
                    row as int,
                    0,
                ),
            decreases width - col,
        {
            let ghost g_cell: Seq<CellType> = grid@;
            let t: CellType = grid.get(row, col);
            let mut skip: bool = false;
            match t {
                CellType::Sand => {
                    sand_fall(grid, row, col);
                },
                CellType::Water => {
                    skip = water_flow(grid, row, col);
                },
                _ => {},
            }
            proof {
                assert(grid@ == pass1_cell(g_cell, w, h, row as int, col as int).0);
                assert(skip == pass1_cell(g_cell, w, h, row as int, col as int).1);
            }
            if skip {
                proof {
                    assert(col + 2 <= width);
                }
                col = col + 2;
            } else {
                col = col + 1;
            }
        }
        proof {
            assert(pass1_row_from(grid@, w, h, row as int, col as int) == grid@);
            assert(pass1_from_row(g_row, w, h, row as int) == pass1_from_row(
                grid@,
                w,
                h,
                row as int + 1,
            ));
        }
        row = row + 1;
    }
}

/// The rising pass over the whole grid, rows top-to-bottom.
#[verifier::loop_isolation(false)]
fn rise_pass(grid: &mut Grid)
    requires
        old(grid).wf(),
    ensures
        final(grid).wf(),
        final(grid).spec_width() == old(grid).spec_width(),
        final(grid).spec_height() == old(grid).spec_height(),
        final(grid)@ == pass2_down_from(
            old(grid)@,
            old(grid).spec_width(),
            old(grid).spec_height(),
            old(grid).spec_height() - 1,
        ),
{
    let width: usize = grid.width();
    let height: usize = grid.height();
    let ghost w: int = grid.spec_width();
    let ghost h: int = grid.spec_height();
    let ghost g0: Seq<CellType> = grid@;
    let mut rows_left: usize = height;
    while rows_left > 0
        invariant
            grid.wf(),
            grid.spec_width() == w,
            grid.spec_height() == h,
            rows_left <= height,
            pass2_down_from(grid@, w, h, rows_left as int - 1) == pass2_down_from(
                g0,
                w,
                h,
                h - 1,
            ),
        decreases rows_left,
    {
        let row: usize = rows_left - 1;
        let ghost g_row: Seq<CellType> = grid@;
        let mut col: usize = 0;
        while col < width
            invariant
                grid.wf(),
                grid.spec_width() == w,
                grid.spec_height() == h,
                col <= width,
                row < height,
                pass2_row_from(grid@, w, h, row as int, col as int) == pass2_row_from(
                    g_row,
                    w,
                    h,
                    row as int,
                    0,
                ),
            decreases width - col,
        {
            let ghost g_cell: Seq<CellType> = grid@;
            let t: CellType = grid.get(row, col);
            let mut skip: bool = false;
            match t {
                CellType::Smoke => {
                    skip = smoke_rise(grid, row, col);
                },
                _ => {},
            }
            proof {
                assert(grid@ == pass2_cell(g_cell, w, h, row as int, col as int).0);
                assert(skip == pass2_cell(g_cell, w, h, row as int, col as int).1);
            }
            if skip {
                proof {
                    assert(col + 2 <= width);
                }
                col = col + 2;
            } else {
                col = col + 1;
            }
        }
        proof {
            assert(pass2_row_from(grid@, w, h, row as int, col as int) == grid@);
            assert(pass2_down_from(g_row, w, h, row as int) == pass2_down_from(
                grid@,
                w,
                h,
                row as int - 1,
            ));
        }
        rows_left = row;
    }
}

/// Advances the whole grid by one tick.
///
/// The result is exactly [`step_spec`] of the old contents: the falling
/// pass moves sand and water with rows scanned bottom-to-top and columns
/// left-to-right, then the rising pass moves smoke with rows scanned
/// top-to-bottom. The scan order, the per-type priority lists and the
/// column skip after a rightward flow decide every contest between two
/// cells for one destination, so the outcome is fully determined.
pub fn step(grid: &mut Grid)
    requires
        old(grid).wf(),
    ensures
        final(grid).wf(),
        final(grid).spec_width() == old(grid).spec_width(),
        final(grid).spec_height() == old(grid).spec_height(),
        final(grid)@ == step_spec(old(grid)@, old(grid).spec_width(), old(grid).spec_height()),
{
    fall_pass(grid);
    rise_pass(grid);
}

} // verus!
