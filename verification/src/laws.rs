use vstd::prelude::*;

use crate::cell::CellType;
use crate::engine::{
    pass1_cell, pass1_from_row, pass1_row_from, pass2_cell, pass2_down_from, pass2_row_from,
    step_spec, swap_cells,
};
use crate::grid::{flat_idx, lemma_flat_idx_bounds, lemma_flat_idx_covers, lemma_flat_idx_injective};

verus! {

/// How many slots of the grid hold the given cell type.
pub open spec fn count_of(g: Seq<CellType>, t: CellType) -> int
    decreases g.len(),
{
    if g.len() == 0 {
        0
    } else {
        count_of(g.drop_last(), t) + if g.last() == t {
            1int
        } else {
            0int
        }
    }
}

/// True when every slot of the grid is empty.
pub open spec fn all_empty(g: Seq<CellType>) -> bool {
    forall|i: int| 0 <= i < g.len() ==> g[i] == CellType::Empty
}

/// Overwriting one slot changes the count of a type by exactly the loss
/// of the old value and the gain of the new one.
proof fn lemma_count_update(s: Seq<CellType>, i: int, v: CellType, t: CellType)
    requires
        0 <= i < s.len(),
    ensures
        count_of(s.update(i, v), t) == count_of(s, t) - (if s[i] == t {
            1int
        } else {
            0int
        }) + (if v == t {
            1int
        } else {
            0int
        }),
    decreases s.len(),
{
    let su = s.update(i, v);
    if i == s.len() - 1 {
        assert(su.drop_last() =~= s.drop_last());
        assert(su.last() == v);
        assert(s.last() == s[i]);
    } else {
        assert(su.drop_last() =~= s.drop_last().update(i, v));
        lemma_count_update(s.drop_last(), i, v, t);
        assert(su.last() == s.last());
    }
}

/// Exchanging two slots leaves the count of every type unchanged.
proof fn lemma_count_swap(s: Seq<CellType>, i: int, j: int, t: CellType)
    requires
        0 <= i < s.len(),
        0 <= j < s.len(),
    ensures
        count_of(swap_cells(s, i, j), t) == count_of(s, t),
{
    let s1 = s.update(i, s[j]);
    lemma_count_update(s, i, s[j], t);
    lemma_count_update(s1, j, s[i], t);
    assert(s1[j] == s[j]);
}

/// The falling pass's action at one coordinate preserves counts: each of
/// its candidate moves is an exchange of two in-bounds slots.
proof fn lemma_count_pass1_cell(
    g: Seq<CellType>,
    w: int,
    h: int,
    row: int,
    col: int,
    t: CellType,
)
    requires
        g.len() == w * h,
        0 <= row < h,
        0 <= col < w,
    ensures
        count_of(pass1_cell(g, w, h, row, col).0, t) == count_of(g, t),
        pass1_cell(g, w, h, row, col).0.len() == g.len(),
{
    lemma_flat_idx_bounds(w, h, row, col);
    let i = flat_idx(w, row, col);
    if row > 0 {
        lemma_flat_idx_bounds(w, h, row - 1, col);
        lemma_count_swap(g, i, flat_idx(w, row - 1, col), t);
        if col > 0 {
            lemma_flat_idx_bounds(w, h, row - 1, col - 1);
            lemma_count_swap(g, i, flat_idx(w, row - 1, col - 1), t);
        }
        if col < w - 1 {
            lemma_flat_idx_bounds(w, h, row - 1, col + 1);
            lemma_count_swap(g, i, flat_idx(w, row - 1, col + 1), t);
        }
    }
    if col > 0 {
        lemma_flat_idx_bounds(w, h, row, col - 1);
        lemma_count_swap(g, i, flat_idx(w, row, col - 1), t);
    }
    if col < w - 1 {
        lemma_flat_idx_bounds(w, h, row, col + 1);
        lemma_count_swap(g, i, flat_idx(w, row, col + 1), t);
    }
}

/// The rising pass's action at one coordinate preserves counts.
proof fn lemma_count_pass2_cell(
    g: Seq<CellType>,
    w: int,
    h: int,
    row: int,
    col: int,
    t: CellType,
)
    requires
        g.len() == w * h,
        0 <= row < h,
        0 <= col < w,
    ensures
        count_of(pass2_cell(g, w, h, row, col).0, t) == count_of(g, t),
        pass2_cell(g, w, h, row, col).0.len() == g.len(),
{
    lemma_flat_idx_bounds(w, h, row, col);
    let i = flat_idx(w, row, col);
    if row < h - 1 {
        lemma_flat_idx_bounds(w, h, row + 1, col);
        lemma_count_swap(g, i, flat_idx(w, row + 1, col), t);
        if col > 0 {
            lemma_flat_idx_bounds(w, h, row + 1, col - 1);
            lemma_count_swap(g, i, flat_idx(w, row + 1, col - 1), t);
        }
        if col < w - 1 {
            lemma_flat_idx_bounds(w, h, row + 1, col + 1);
            lemma_count_swap(g, i, flat_idx(w, row + 1, col + 1), t);
        }
    }
    if col > 0 {
        lemma_flat_idx_bounds(w, h, row, col - 1);
        lemma_count_swap(g, i, flat_idx(w, row, col - 1), t);
    }
    if col < w - 1 {
        lemma_flat_idx_bounds(w, h, row, col + 1);
        lemma_count_swap(g, i, flat_idx(w, row, col + 1), t);
    }
}

proof fn lemma_count_pass1_row_from(
    g: Seq<CellType>,
    w: int,
    h: int,
    row: int,
    col: int,
    t: CellType,
)
    requires
        g.len() == w * h,
        0 <= row < h,
    ensures
        count_of(pass1_row_from(g, w, h, row, col), t) == count_of(g, t),
        pass1_row_from(g, w, h, row, col).len() == g.len(),
    decreases w - col,
{
    if col < 0 || col >= w {
    } else {
        lemma_count_pass1_cell(g, w, h, row, col, t);
        let r = pass1_cell(g, w, h, row, col);
        let next = if r.1 && col + 2 <= w {
            col + 2
        } else {
            col + 1
        };
        lemma_count_pass1_row_from(r.0, w, h, row, next, t);
    }
}

proof fn lemma_count_pass2_row_from(
    g: Seq<CellType>,
    w: int,
    h: int,
    row: int,
    col: int,
    t: CellType,
)
    requires
        g.len() == w * h,
        0 <= row < h,
    ensures
        count_of(pass2_row_from(g, w, h, row, col), t) == count_of(g, t),
        pass2_row_from(g, w, h, row, col).len() == g.len(),
    decreases w - col,
{
    if col < 0 || col >= w {
    } else {
        lemma_count_pass2_cell(g, w, h, row, col, t);
        let r = pass2_cell(g, w, h, row, col);
        let next = if r.1 && col + 2 <= w {
            col + 2
        } else {
            col + 1
        };
        lemma_count_pass2_row_from(r.0, w, h, row, next, t);
    }
}

proof fn lemma_count_pass1_from_row(g: Seq<CellType>, w: int, h: int, row: int, t: CellType)
    requires
        g.len() == w * h,
    ensures
        count_of(pass1_from_row(g, w, h, row), t) == count_of(g, t),
        pass1_from_row(g, w, h, row).len() == g.len(),
    decreases h - row,
{
    if row < 0 || row >= h {
    } else {
        lemma_count_pass1_row_from(g, w, h, row, 0, t);
        lemma_count_pass1_from_row(pass1_row_from(g, w, h, row, 0), w, h, row + 1, t);
    }
}

proof fn lemma_count_pass2_down_from(g: Seq<CellType>, w: int, h: int, row: int, t: CellType)
    requires
        g.len() == w * h,
        row < h,
    ensures
        count_of(pass2_down_from(g, w, h, row), t) == count_of(g, t),
        pass2_down_from(g, w, h, row).len() == g.len(),
    decreases row + 1,
{
    if row < 0 {
    } else {
        lemma_count_pass2_row_from(g, w, h, row, 0, t);
        lemma_count_pass2_down_from(pass2_row_from(g, w, h, row, 0), w, h, row - 1, t);
    }
}

/// Law: one tick relocates matter but never creates or destroys it. For
/// every cell type, the grid holds exactly as many cells of that type
/// after a step as before it; every move the engine makes is an exchange
/// of two slots.
pub proof fn lemma_step_preserves_counts(g: Seq<CellType>, w: int, h: int, t: CellType)
    requires
        0 < w,
        0 < h,
        g.len() == w * h,
    ensures
        count_of(step_spec(g, w, h), t) == count_of(g, t),
        step_spec(g, w, h).len() == g.len(),
{
    lemma_count_pass1_from_row(g, w, h, 0, t);
    lemma_count_pass2_down_from(pass1_from_row(g, w, h, 0), w, h, h - 1, t);
}

/// Law: a step never invents a cell type. A type with no cells in the
/// grid before a step has none after it; cells are only relocated.
pub proof fn lemma_step_no_new_types(g: Seq<CellType>, w: int, h: int, t: CellType)
    requires
        0 < w,
        0 < h,
        g.len() == w * h,
        count_of(g, t) == 0,
    ensures
        count_of(step_spec(g, w, h), t) == 0,
{
    lemma_step_preserves_counts(g, w, h, t);
}

/// Law: sand and rock in particular are conserved exactly across a step:
/// no rule creates or destroys either.
pub proof fn lemma_step_preserves_sand_and_rock(g: Seq<CellType>, w: int, h: int)
    requires
        0 < w,
        0 < h,
        g.len() == w * h,
    ensures
        count_of(step_spec(g, w, h), CellType::Sand) == count_of(g, CellType::Sand),
        count_of(step_spec(g, w, h), CellType::Rock) == count_of(g, CellType::Rock),
{
    lemma_step_preserves_counts(g, w, h, CellType::Sand);
    lemma_step_preserves_counts(g, w, h, CellType::Rock);
}

proof fn lemma_empty_pass1_row_from(g: Seq<CellType>, w: int, h: int, row: int, col: int)
    requires
        g.len() == w * h,
        0 <= row < h,
        all_empty(g),
    ensures
        pass1_row_from(g, w, h, row, col) == g,
    decreases w - col,
{
    if col < 0 || col >= w {
    } else {
        lemma_flat_idx_bounds(w, h, row, col);
        assert(g[flat_idx(w, row, col)] == CellType::Empty);
        lemma_empty_pass1_row_from(g, w, h, row, col + 1);
    }
}

proof fn lemma_empty_pass2_row_from(g: Seq<CellType>, w: int, h: int, row: int, col: int)
    requires
        g.len() == w * h,
        0 <= row < h,
        all_empty(g),
    ensures
        pass2_row_from(g, w, h, row, col) == g,
    decreases w - col,
{
    if col < 0 || col >= w {
    } else {
        lemma_flat_idx_bounds(w, h, row, col);
        assert(g[flat_idx(w, row, col)] == CellType::Empty);
        lemma_empty_pass2_row_from(g, w, h, row, col + 1);
    }
}

proof fn lemma_empty_pass1_from_row(g: Seq<CellType>, w: int, h: int, row: int)
    requires
        g.len() == w * h,
        all_empty(g),
    ensures
        pass1_from_row(g, w, h, row) == g,
    decreases h - row,
{
    if row < 0 || row >= h {
    } else {
        lemma_empty_pass1_row_from(g, w, h, row, 0);
        lemma_empty_pass1_from_row(g, w, h, row + 1);
    }
}

proof fn lemma_empty_pass2_down_from(g: Seq<CellType>, w: int, h: int, row: int)
    requires
        g.len() == w * h,
        row < h,
        all_empty(g),
    ensures
        pass2_down_from(g, w, h, row) == g,
    decreases row + 1,
{
    if row < 0 {
    } else {
        lemma_empty_pass2_row_from(g, w, h, row, 0);
        lemma_empty_pass2_down_from(g, w, h, row - 1);
    }
}

/// Law: the all-empty grid is a fixed point of the tick: no rule moves
/// emptiness, so a step returns the grid unchanged.
pub proof fn lemma_step_fixes_all_empty(g: Seq<CellType>, w: int, h: int)
    requires
        0 < w,
        0 < h,
        g.len() == w * h,
        all_empty(g),
    ensures
        step_spec(g, w, h) == g,
{
    lemma_empty_pass1_from_row(g, w, h, 0);
    lemma_empty_pass2_down_from(g, w, h, h - 1);
}

/// The falling pass's action at one coordinate touches no rock slot:
/// rock never acts, and every move's destination is empty or water.
proof fn lemma_rock_pass1_cell(g: Seq<CellType>, w: int, h: int, row: int, col: int)
    requires
        g.len() == w * h,
        0 <= row < h,
        0 <= col < w,
    ensures
        forall|i: int|
            0 <= i < g.len() && g[i] == CellType::Rock ==> pass1_cell(g, w, h, row, col).0[i]
                == CellType::Rock,
        pass1_cell(g, w, h, row, col).0.len() == g.len(),
{
    lemma_flat_idx_bounds(w, h, row, col);
    if row > 0 {
        lemma_flat_idx_bounds(w, h, row - 1, col);
        if col > 0 {
            lemma_flat_idx_bounds(w, h, row - 1, col - 1);
        }
        if col < w - 1 {
            lemma_flat_idx_bounds(w, h, row - 1, col + 1);
        }
    }
    if col > 0 {
        lemma_flat_idx_bounds(w, h, row, col - 1);
    }
    if col < w - 1 {
        lemma_flat_idx_bounds(w, h, row, col + 1);
    }
}

/// The rising pass's action at one coordinate touches no rock slot.
proof fn lemma_rock_pass2_cell(g: Seq<CellType>, w: int, h: int, row: int, col: int)
    requires
        g.len() == w * h,
        0 <= row < h,
        0 <= col < w,
    ensures
        forall|i: int|
            0 <= i < g.len() && g[i] == CellType::Rock ==> pass2_cell(g, w, h, row, col).0[i]
                == CellType::Rock,
        pass2_cell(g, w, h, row, col).0.len() == g.len(),
{
    lemma_flat_idx_bounds(w, h, row, col);
    if row < h - 1 {
        lemma_flat_idx_bounds(w, h, row + 1, col);
        if col > 0 {
            lemma_flat_idx_bounds(w, h, row + 1, col - 1);
        }
        if col < w - 1 {
            lemma_flat_idx_bounds(w, h, row + 1, col + 1);
        }
    }
    if col > 0 {
        lemma_flat_idx_bounds(w, h, row, col - 1);
    }
    if col < w - 1 {
        lemma_flat_idx_bounds(w, h, row, col + 1);
    }
}

proof fn lemma_rock_pass1_row_from(g: Seq<CellType>, w: int, h: int, row: int, col: int)
    requires
        g.len() == w * h,
        0 <= row < h,
    ensures
        forall|i: int|
            0 <= i < g.len() && g[i] == CellType::Rock ==> pass1_row_from(g, w, h, row, col)[i]
                == CellType::Rock,
        pass1_row_from(g, w, h, row, col).len() == g.len(),
    decreases w - col,
{
    if col < 0 || col >= w {
    } else {
        lemma_rock_pass1_cell(g, w, h, row, col);
        let r = pass1_cell(g, w, h, row, col);
        let next = if r.1 && col + 2 <= w {
            col + 2
        } else {
            col + 1
        };
        lemma_rock_pass1_row_from(r.0, w, h, row, next);
    }
}

proof fn lemma_rock_pass2_row_from(g: Seq<CellType>, w: int, h: int, row: int, col: int)
    requires
        g.len() == w * h,
        0 <= row < h,
    ensures
        forall|i: int|
            0 <= i < g.len() && g[i] == CellType::Rock ==> pass2_row_from(g, w, h, row, col)[i]
                == CellType::Rock,
        pass2_row_from(g, w, h, row, col).len() == g.len(),
    decreases w - col,
{
    if col < 0 || col >= w {
    } else {
        lemma_rock_pass2_cell(g, w, h, row, col);
        let r = pass2_cell(g, w, h, row, col);
        let next = if r.1 && col + 2 <= w {
            col + 2
        } else {
            col + 1
        };
        lemma_rock_pass2_row_from(r.0, w, h, row, next);
    }
}

proof fn lemma_rock_pass1_from_row(g: Seq<CellType>, w: int, h: int, row: int)
    requires
        g.len() == w * h,
    ensures
        forall|i: int|
            0 <= i < g.len() && g[i] == CellType::Rock ==> pass1_from_row(g, w, h, row)[i]
                == CellType::Rock,
        pass1_from_row(g, w, h, row).len() == g.len(),
    decreases h - row,
{
    if row < 0 || row >= h {
    } else {
        lemma_rock_pass1_row_from(g, w, h, row, 0);
        lemma_rock_pass1_from_row(pass1_row_from(g, w, h, row, 0), w, h, row + 1);
    }
}

proof fn lemma_rock_pass2_down_from(g: Seq<CellType>, w: int, h: int, row: int)
    requires
        g.len() == w * h,
        row < h,
    ensures
        forall|i: int|
            0 <= i < g.len() && g[i] == CellType::Rock ==> pass2_down_from(g, w, h, row)[i]
                == CellType::Rock,
        pass2_down_from(g, w, h, row).len() == g.len(),
    decreases row + 1,
{
    if row < 0 {
    } else {
        lemma_rock_pass2_row_from(g, w, h, row, 0);
        lemma_rock_pass2_down_from(pass2_row_from(g, w, h, row, 0), w, h, row - 1);
    }
}

/// Law: rock is inert. Every slot that holds rock before a step holds
/// rock in the same place after it: no rule moves rock, and no rule
/// moves anything into a rock slot.
pub proof fn lemma_step_keeps_rock_in_place(g: Seq<CellType>, w: int, h: int)
    requires
        0 < w,
        0 < h,
        g.len() == w * h,
    ensures
        forall|i: int|
            0 <= i < g.len() && g[i] == CellType::Rock ==> step_spec(g, w, h)[i]
                == CellType::Rock,
{
    lemma_rock_pass1_from_row(g, w, h, 0);
    lemma_rock_pass2_down_from(pass1_from_row(g, w, h, 0), w, h, h - 1);
}

/// A water cell at `(pr, pc)` walled in by rock on all eight adjacent
/// coordinates.
pub open spec fn walled_water(g: Seq<CellType>, w: int, pr: int, pc: int) -> bool {
    &&& g[flat_idx(w, pr, pc)] == CellType::Water
    &&& g[flat_idx(w, pr - 1, pc - 1)] == CellType::Rock
    &&& g[flat_idx(w, pr - 1, pc)] == CellType::Rock
    &&& g[flat_idx(w, pr - 1, pc + 1)] == CellType::Rock
    &&& g[flat_idx(w, pr, pc - 1)] == CellType::Rock
    &&& g[flat_idx(w, pr, pc + 1)] == CellType::Rock
    &&& g[flat_idx(w, pr + 1, pc - 1)] == CellType::Rock
    &&& g[flat_idx(w, pr + 1, pc)] == CellType::Rock
    &&& g[flat_idx(w, pr + 1, pc + 1)] == CellType::Rock
}

/// No single action of the falling pass reaches a walled-in water cell
/// or its wall: rock is never a source or a target, the water itself
/// has no empty or water neighbour to move into, and a sand cell close
/// enough to displace the water would have to sit where the wall is.
proof fn lemma_walled_pass1_cell(
    g: Seq<CellType>,
    w: int,
    h: int,
    row: int,
    col: int,
    pr: int,
    pc: int,
)
    requires
        g.len() == w * h,
        0 <= row < h,
        0 <= col < w,
        1 <= pr < h - 1,
        1 <= pc < w - 1,
        walled_water(g, w, pr, pc),
    ensures
        walled_water(pass1_cell(g, w, h, row, col).0, w, pr, pc),
        pass1_cell(g, w, h, row, col).0.len() == g.len(),
{
    lemma_flat_idx_bounds(w, h, row, col);
    lemma_flat_idx_bounds(w, h, pr, pc);
    lemma_flat_idx_bounds(w, h, pr - 1, pc - 1);
    lemma_flat_idx_bounds(w, h, pr - 1, pc);
    lemma_flat_idx_bounds(w, h, pr - 1, pc + 1);
    lemma_flat_idx_bounds(w, h, pr, pc - 1);
    lemma_flat_idx_bounds(w, h, pr, pc + 1);
    lemma_flat_idx_bounds(w, h, pr + 1, pc - 1);
    lemma_flat_idx_bounds(w, h, pr + 1, pc);
    lemma_flat_idx_bounds(w, h, pr + 1, pc + 1);
    lemma_flat_idx_injective(w, row, col, pr, pc);
    if row > 0 {
        lemma_flat_idx_bounds(w, h, row - 1, col);
        lemma_flat_idx_injective(w, row - 1, col, pr, pc);
        if col > 0 {
            lemma_flat_idx_bounds(w, h, row - 1, col - 1);
            lemma_flat_idx_injective(w, row - 1, col - 1, pr, pc);
        }
        if col < w - 1 {
            lemma_flat_idx_bounds(w, h, row - 1, col + 1);
            lemma_flat_idx_injective(w, row - 1, col + 1, pr, pc);
        }
    }
    if col > 0 {
        lemma_flat_idx_bounds(w, h, row, col - 1);
        lemma_flat_idx_injective(w, row, col - 1, pr, pc);
    }
    if col < w - 1 {
        lemma_flat_idx_bounds(w, h, row, col + 1);
        lemma_flat_idx_injective(w, row, col + 1, pr, pc);
    }
}

/// No single action of the rising pass reaches a walled-in water cell or
/// its wall: smoke only moves into empty slots, and neither the water
/// nor its rock wall is ever empty or smoke.
proof fn lemma_walled_pass2_cell(
    g: Seq<CellType>,
    w: int,
    h: int,
    row: int,
    col: int,
    pr: int,
    pc: int,
)
    requires
        g.len() == w * h,
        0 <= row < h,
        0 <= col < w,
        1 <= pr < h - 1,
        1 <= pc < w - 1,
        walled_water(g, w, pr, pc),
    ensures
        walled_water(pass2_cell(g, w, h, row, col).0, w, pr, pc),
        pass2_cell(g, w, h, row, col).0.len() == g.len(),
{
    lemma_flat_idx_bounds(w, h, row, col);
    lemma_flat_idx_bounds(w, h, pr, pc);
    lemma_flat_idx_bounds(w, h, pr - 1, pc - 1);
    lemma_flat_idx_bounds(w, h, pr - 1, pc);
    lemma_flat_idx_bounds(w, h, pr - 1, pc + 1);
    lemma_flat_idx_bounds(w, h, pr, pc - 1);
    lemma_flat_idx_bounds(w, h, pr, pc + 1);
    lemma_flat_idx_bounds(w, h, pr + 1, pc - 1);
    lemma_flat_idx_bounds(w, h, pr + 1, pc);
    lemma_flat_idx_bounds(w, h, pr + 1, pc + 1);
    if row < h - 1 {
        lemma_flat_idx_bounds(w, h, row + 1, col);
        if col > 0 {
            lemma_flat_idx_bounds(w, h, row + 1, col - 1);
        }
        if col < w - 1 {
            lemma_flat_idx_bounds(w, h, row + 1, col + 1);
        }
    }
    if col > 0 {
        lemma_flat_idx_bounds(w, h, row, col - 1);
    }
    if col < w - 1 {
        lemma_flat_idx_bounds(w, h, row, col + 1);
    }
}

proof fn lemma_walled_pass1_row_from(
    g: Seq<CellType>,
    w: int,
    h: int,
    row: int,
    col: int,
    pr: int,
    pc: int,
)
    requires
        g.len() == w * h,
        0 <= row < h,
        1 <= pr < h - 1,
        1 <= pc < w - 1,
        walled_water(g, w, pr, pc),
    ensures
        walled_water(pass1_row_from(g, w, h, row, col), w, pr, pc),
        pass1_row_from(g, w, h, row, col).len() == g.len(),
    decreases w - col,
{
    if col < 0 || col >= w {
    } else {
        lemma_walled_pass1_cell(g, w, h, row, col, pr, pc);
        let r = pass1_cell(g, w, h, row, col);
        let next = if r.1 && col + 2 <= w {
            col + 2
        } else {
            col + 1
        };
        lemma_walled_pass1_row_from(r.0, w, h, row, next, pr, pc);
    }
}

proof fn lemma_walled_pass2_row_from(
    g: Seq<CellType>,
    w: int,
    h: int,
    row: int,
    col: int,
    pr: int,
    pc: int,
)
    requires
        g.len() == w * h,
        0 <= row < h,
        1 <= pr < h - 1,
        1 <= pc < w - 1,
        walled_water(g, w, pr, pc),
    ensures
        walled_water(pass2_row_from(g, w, h, row, col), w, pr, pc),
        pass2_row_from(g, w, h, row, col).len() == g.len(),
    decreases w - col,
{
    if col < 0 || col >= w {
    } else {
        lemma_walled_pass2_cell(g, w, h, row, col, pr, pc);
        let r = pass2_cell(g, w, h, row, col);
        let next = if r.1 && col + 2 <= w {
            col + 2
        } else {
            col + 1
        };
        lemma_walled_pass2_row_from(r.0, w, h, row, next, pr, pc);
    }
}

proof fn lemma_walled_pass1_from_row(
    g: Seq<CellType>,
    w: int,
    h: int,
    row: int,
    pr: int,
    pc: int,
)
    requires
        g.len() == w * h,
        1 <= pr < h - 1,
        1 <= pc < w - 1,
        walled_water(g, w, pr, pc),
    ensures
        walled_water(pass1_from_row(g, w, h, row), w, pr, pc),
        pass1_from_row(g, w, h, row).len() == g.len(),
    decreases h - row,
{
    if row < 0 || row >= h {
    } else {
        lemma_walled_pass1_row_from(g, w, h, row, 0, pr, pc);
        lemma_walled_pass1_from_row(pass1_row_from(g, w, h, row, 0), w, h, row + 1, pr, pc);
    }
}

proof fn lemma_walled_pass2_down_from(
    g: Seq<CellType>,
    w: int,
    h: int,
    row: int,
    pr: int,
    pc: int,
)
    requires
        g.len() == w * h,
        row < h,
        1 <= pr < h - 1,
        1 <= pc < w - 1,
        walled_water(g, w, pr, pc),
    ensures
        walled_water(pass2_down_from(g, w, h, row), w, pr, pc),
        pass2_down_from(g, w, h, row).len() == g.len(),
    decreases row + 1,
{
    if row < 0 {
    } else {
        lemma_walled_pass2_row_from(g, w, h, row, 0, pr, pc);
        lemma_walled_pass2_down_from(pass2_row_from(g, w, h, row, 0), w, h, row - 1, pr, pc);
    }
}

/// Law: a water cell walled in by rock on every adjacent coordinate is
/// untouched by a step, wall included. Rock alone on the four cardinal
/// sides is not enough: water slips through an open lower diagonal, and
/// sand arriving from an open upper diagonal displaces it.
pub proof fn lemma_walled_water_unmoved(g: Seq<CellType>, w: int, h: int, pr: int, pc: int)
    requires
        0 < w,
        0 < h,
        g.len() == w * h,
        1 <= pr < h - 1,
        1 <= pc < w - 1,
        walled_water(g, w, pr, pc),
    ensures
        walled_water(step_spec(g, w, h), w, pr, pc),
        step_spec(g, w, h)[flat_idx(w, pr, pc)] == CellType::Water,
{
    lemma_walled_pass1_from_row(g, w, h, 0, pr, pc);
    lemma_walled_pass2_down_from(pass1_from_row(g, w, h, 0), w, h, h - 1, pr, pc);
}

/// Every cell other than the one at `(sr, sc)` is rock or empty, so no
/// cell but that one can act during the falling pass.
pub open spec fn inert_except(g: Seq<CellType>, w: int, h: int, sr: int, sc: int) -> bool {
    forall|r: int, c: int|
        0 <= r < h && 0 <= c < w && !(r == sr && c == sc) ==> (g[flat_idx(w, r, c)]
            == CellType::Rock || g[flat_idx(w, r, c)] == CellType::Empty)
}

/// No slot of the grid holds smoke, so the rising pass does nothing.
pub open spec fn no_smoke(g: Seq<CellType>) -> bool {
    forall|i: int| 0 <= i < g.len() ==> g[i] != CellType::Smoke
}

/// The falling pass leaves a row alone when the only cell that could
/// act lies in a different row.
proof fn lemma_inert_pass1_row(
    g: Seq<CellType>,
    w: int,
    h: int,
    row: int,
    col: int,
    sr: int,
    sc: int,
)
    requires
        g.len() == w * h,
        0 <= row < h,
        row != sr,
        inert_except(g, w, h, sr, sc),
    ensures
        pass1_row_from(g, w, h, row, col) == g,
    decreases w - col,
{
    if col < 0 || col >= w {
    } else {
        lemma_flat_idx_bounds(w, h, row, col);
        assert(g[flat_idx(w, row, col)] == CellType::Rock || g[flat_idx(w, row, col)]
            == CellType::Empty);
        lemma_inert_pass1_row(g, w, h, row, col + 1, sr, sc);
    }
}

/// The falling pass leaves all rows above the acting cell's row alone.
proof fn lemma_inert_pass1_rows_above(
    g: Seq<CellType>,
    w: int,
    h: int,
    row: int,
    sr: int,
    sc: int,
)
    requires
        g.len() == w * h,
        sr < row,
        inert_except(g, w, h, sr, sc),
    ensures
        pass1_from_row(g, w, h, row) == g,
    decreases h - row,
{
    if row < 0 || row >= h {
    } else {
        lemma_inert_pass1_row(g, w, h, row, 0, sr, sc);
        lemma_inert_pass1_rows_above(g, w, h, row + 1, sr, sc);
    }
}

/// Exchanging a lone sand cell with the empty slot below it yields a
/// grid whose only non-inert cell is the sand, one row lower.
proof fn lemma_lone_sand_swap_shape(g: Seq<CellType>, w: int, h: int, sr: int, sc: int)
    requires
        g.len() == w * h,
        1 <= sr < h,
        0 <= sc < w,
        g[flat_idx(w, sr, sc)] == CellType::Sand,
        g[flat_idx(w, sr - 1, sc)] == CellType::Empty,
        inert_except(g, w, h, sr, sc),
    ensures
        inert_except(
            swap_cells(g, flat_idx(w, sr, sc), flat_idx(w, sr - 1, sc)),
            w,
            h,
            sr - 1,
            sc,
        ),
        swap_cells(g, flat_idx(w, sr, sc), flat_idx(w, sr - 1, sc))[flat_idx(w, sr - 1, sc)]
            == CellType::Sand,
        swap_cells(g, flat_idx(w, sr, sc), flat_idx(w, sr - 1, sc)).len() == g.len(),
        no_smoke(swap_cells(g, flat_idx(w, sr, sc), flat_idx(w, sr - 1, sc))),
{
    let gs = swap_cells(g, flat_idx(w, sr, sc), flat_idx(w, sr - 1, sc));
    lemma_flat_idx_bounds(w, h, sr, sc);
    lemma_flat_idx_bounds(w, h, sr - 1, sc);
    assert forall|r: int, c: int|
        0 <= r < h && 0 <= c < w && !(r == sr - 1 && c == sc) implies (gs[flat_idx(w, r, c)]
        == CellType::Rock || gs[flat_idx(w, r, c)] == CellType::Empty) by {
        lemma_flat_idx_bounds(w, h, r, c);
        lemma_flat_idx_injective(w, r, c, sr, sc);
        lemma_flat_idx_injective(w, r, c, sr - 1, sc);
    }
    assert forall|i: int| 0 <= i < gs.len() implies gs[i] != CellType::Smoke by {
        lemma_flat_idx_covers(w, h, i);
        let (r, c) = choose|r: int, c: int|
            0 <= r < h && 0 <= c < w && i == flat_idx(w, r, c);
        lemma_flat_idx_injective(w, r, c, sr, sc);
        lemma_flat_idx_injective(w, r, c, sr - 1, sc);
    }
}

/// Scanning the acting row performs exactly the sand's one exchange.
proof fn lemma_lone_sand_row(g: Seq<CellType>, w: int, h: int, col: int, sr: int, sc: int)
    requires
        g.len() == w * h,
        1 <= sr < h,
        0 <= col <= sc,
        sc < w,
        g[flat_idx(w, sr, sc)] == CellType::Sand,
        g[flat_idx(w, sr - 1, sc)] == CellType::Empty,
        inert_except(g, w, h, sr, sc),
    ensures
        pass1_row_from(g, w, h, sr, col) == swap_cells(
            g,
            flat_idx(w, sr, sc),
            flat_idx(w, sr - 1, sc),
        ),
    decreases w - col,
{
    lemma_flat_idx_bounds(w, h, sr, col);
    if col < sc {
        assert(g[flat_idx(w, sr, col)] == CellType::Rock || g[flat_idx(w, sr, col)]
            == CellType::Empty);
        lemma_lone_sand_row(g, w, h, col + 1, sr, sc);
    } else {
        let gs = swap_cells(g, flat_idx(w, sr, sc), flat_idx(w, sr - 1, sc));
        lemma_flat_idx_bounds(w, h, sr - 1, sc);
        assert(pass1_cell(g, w, h, sr, sc) == (gs, false));
        lemma_lone_sand_swap_shape(g, w, h, sr, sc);
        lemma_inert_pass1_row(gs, w, h, sr, sc + 1, sr - 1, sc);
    }
}

/// The falling pass over the rows from `row` upwards, for any starting
/// row at or below the sand, performs exactly the sand's one exchange.
proof fn lemma_lone_sand_pass1_from(g: Seq<CellType>, w: int, h: int, row: int, sr: int, sc: int)
    requires
        g.len() == w * h,
        1 <= sr < h,
        0 <= sc < w,
        0 <= row <= sr,
        g[flat_idx(w, sr, sc)] == CellType::Sand,
        g[flat_idx(w, sr - 1, sc)] == CellType::Empty,
        inert_except(g, w, h, sr, sc),
    ensures
        pass1_from_row(g, w, h, row) == swap_cells(
            g,
            flat_idx(w, sr, sc),
            flat_idx(w, sr - 1, sc),
        ),
    decreases h - row,
{
    if row < sr {
        lemma_inert_pass1_row(g, w, h, row, 0, sr, sc);
        lemma_lone_sand_pass1_from(g, w, h, row + 1, sr, sc);
    } else {
        let gs = swap_cells(g, flat_idx(w, sr, sc), flat_idx(w, sr - 1, sc));
        lemma_lone_sand_row(g, w, h, 0, sr, sc);
        lemma_lone_sand_swap_shape(g, w, h, sr, sc);
        lemma_inert_pass1_rows_above(gs, w, h, sr + 1, sr - 1, sc);
    }
}

/// The rising pass leaves a grid without smoke entirely alone.
proof fn lemma_no_smoke_pass2_row(g: Seq<CellType>, w: int, h: int, row: int, col: int)
    requires
        g.len() == w * h,
        0 <= row < h,
        no_smoke(g),
    ensures
        pass2_row_from(g, w, h, row, col) == g,
    decreases w - col,
{
    if col < 0 || col >= w {
    } else {
        lemma_flat_idx_bounds(w, h, row, col);
        assert(g[flat_idx(w, row, col)] != CellType::Smoke);
        lemma_no_smoke_pass2_row(g, w, h, row, col + 1);
    }
}

/// The rising pass over any range of rows of a smokeless grid is the
/// identity.
proof fn lemma_no_smoke_pass2_down(g: Seq<CellType>, w: int, h: int, row: int)
    requires
        g.len() == w * h,
        row < h,
        no_smoke(g),
    ensures
        pass2_down_from(g, w, h, row) == g,
    decreases row + 1,
{
    if row < 0 {
    } else {
        lemma_no_smoke_pass2_row(g, w, h, row, 0);
        lemma_no_smoke_pass2_down(g, w, h, row - 1);
    }
}

/// Law: a sand cell with an empty cell directly below it, in a grid
/// whose every other cell is rock or empty, falls straight down in one
/// step: the whole step is exactly that one exchange. The premise that
/// no other sand or water is present matters: in a busier grid, another
/// grain scanned earlier can slide into the empty slot first.
pub proof fn lemma_lone_sand_falls(g: Seq<CellType>, w: int, h: int, sr: int, sc: int)
    requires
        0 < w,
        0 < h,
        g.len() == w * h,
        1 <= sr < h,
        0 <= sc < w,
        g[flat_idx(w, sr, sc)] == CellType::Sand,
        g[flat_idx(w, sr - 1, sc)] == CellType::Empty,
        inert_except(g, w, h, sr, sc),
    ensures
        step_spec(g, w, h) == swap_cells(g, flat_idx(w, sr, sc), flat_idx(w, sr - 1, sc)),
        step_spec(g, w, h)[flat_idx(w, sr - 1, sc)] == CellType::Sand,
{
    let gs = swap_cells(g, flat_idx(w, sr, sc), flat_idx(w, sr - 1, sc));
    lemma_lone_sand_pass1_from(g, w, h, 0, sr, sc);
    lemma_lone_sand_swap_shape(g, w, h, sr, sc);
    lemma_no_smoke_pass2_down(gs, w, h, h - 1);
}

/// Every cell other than the two named ones is rock or empty.
pub open spec fn inert_except_pair(
    g: Seq<CellType>,
    w: int,
    h: int,
    r1: int,
    c1: int,
    r2: int,
    c2: int,
) -> bool {
    forall|r: int, c: int|
        0 <= r < h && 0 <= c < w && !(r == r1 && c == c1) && !(r == r2 && c == c2) ==> (g[flat_idx(
            w,
            r,
            c,
        )] == CellType::Rock || g[flat_idx(w, r, c)] == CellType::Empty)
}

/// The water cell at `(wr, wc)` has no empty slot to flow into: each of
/// its five candidate destinations is occupied or outside the grid.
pub open spec fn water_blocked(g: Seq<CellType>, w: int, h: int, wr: int, wc: int) -> bool {
    &&& (wr > 0) ==> g[flat_idx(w, wr - 1, wc)] != CellType::Empty
    &&& (wr > 0 && wc > 0) ==> g[flat_idx(w, wr - 1, wc - 1)] != CellType::Empty
    &&& (wr > 0 && wc < w - 1) ==> g[flat_idx(w, wr - 1, wc + 1)] != CellType::Empty
    &&& (wc > 0) ==> g[flat_idx(w, wr, wc - 1)] != CellType::Empty
    &&& (wc < w - 1) ==> g[flat_idx(w, wr, wc + 1)] != CellType::Empty
}

/// The falling pass leaves the tail of a row alone when every cell of
/// the tail is rock or empty.
proof fn lemma_inert_tail_pass1_row(g: Seq<CellType>, w: int, h: int, row: int, col: int)
    requires
        g.len() == w * h,
        0 <= row < h,
        forall|c: int|
            col <= c < w ==> (g[flat_idx(w, row, c)] == CellType::Rock || g[flat_idx(w, row, c)]
                == CellType::Empty),
    ensures
        pass1_row_from(g, w, h, row, col) == g,
    decreases w - col,
{
    if col < 0 || col >= w {
    } else {
        lemma_flat_idx_bounds(w, h, row, col);
        assert(g[flat_idx(w, row, col)] == CellType::Rock || g[flat_idx(w, row, col)]
            == CellType::Empty);
        lemma_inert_tail_pass1_row(g, w, h, row, col + 1);
    }
}

/// The falling pass leaves every row above both named cells alone.
proof fn lemma_pair_inert_pass1_rows_above(
    g: Seq<CellType>,
    w: int,
    h: int,
    row: int,
    r1: int,
    c1: int,
    r2: int,
    c2: int,
)
    requires
        g.len() == w * h,
        r1 < row,
        r2 < row,
        inert_except_pair(g, w, h, r1, c1, r2, c2),
    ensures
        pass1_from_row(g, w, h, row) == g,
    decreases h - row,
{
    if row < 0 || row >= h {
    } else {
        lemma_inert_tail_pass1_row(g, w, h, row, 0);
        lemma_pair_inert_pass1_rows_above(g, w, h, row + 1, r1, c1, r2, c2);
    }
}

/// Exchanging the sand with the blocked water below it yields a grid
/// that is still inert away from those two cells and holds no smoke.
proof fn lemma_sand_water_swap_shape(g: Seq<CellType>, w: int, h: int, sr: int, sc: int)
    requires
        g.len() == w * h,
        1 <= sr < h,
        0 <= sc < w,
        g[flat_idx(w, sr, sc)] == CellType::Sand,
        g[flat_idx(w, sr - 1, sc)] == CellType::Water,
        inert_except_pair(g, w, h, sr, sc, sr - 1, sc),
    ensures
        inert_except_pair(
            swap_cells(g, flat_idx(w, sr, sc), flat_idx(w, sr - 1, sc)),
            w,
            h,
            sr,
            sc,
            sr - 1,
            sc,
        ),
        swap_cells(g, flat_idx(w, sr, sc), flat_idx(w, sr - 1, sc))[flat_idx(w, sr - 1, sc)]
            == CellType::Sand,
        swap_cells(g, flat_idx(w, sr, sc), flat_idx(w, sr - 1, sc))[flat_idx(w, sr, sc)]
            == CellType::Water,
        swap_cells(g, flat_idx(w, sr, sc), flat_idx(w, sr - 1, sc)).len() == g.len(),
        no_smoke(swap_cells(g, flat_idx(w, sr, sc), flat_idx(w, sr - 1, sc))),
{
    let gs = swap_cells(g, flat_idx(w, sr, sc), flat_idx(w, sr - 1, sc));
    lemma_flat_idx_bounds(w, h, sr, sc);
    lemma_flat_idx_bounds(w, h, sr - 1, sc);
    assert forall|r: int, c: int|
        0 <= r < h && 0 <= c < w && !(r == sr && c == sc) && !(r == sr - 1 && c == sc) implies (
    gs[flat_idx(w, r, c)] == CellType::Rock || gs[flat_idx(w, r, c)] == CellType::Empty) by {
        lemma_flat_idx_bounds(w, h, r, c);
        lemma_flat_idx_injective(w, r, c, sr, sc);
        lemma_flat_idx_injective(w, r, c, sr - 1, sc);
    }
    assert forall|i: int| 0 <= i < gs.len() implies gs[i] != CellType::Smoke by {
        lemma_flat_idx_covers(w, h, i);
        let (r, c) = choose|r: int, c: int|
            0 <= r < h && 0 <= c < w && i == flat_idx(w, r, c);
        lemma_flat_idx_injective(w, r, c, sr, sc);
        lemma_flat_idx_injective(w, r, c, sr - 1, sc);
    }
}

/// Scanning the water's row does nothing: the water is blocked and the
/// rest of the row is rock or empty.
proof fn lemma_blocked_water_row(g: Seq<CellType>, w: int, h: int, col: int, sr: int, sc: int)
    requires
        g.len() == w * h,
        1 <= sr < h,
        0 <= col <= sc,
        sc < w,
        g[flat_idx(w, sr, sc)] == CellType::Sand,
        g[flat_idx(w, sr - 1, sc)] == CellType::Water,
        inert_except_pair(g, w, h, sr, sc, sr - 1, sc),
        water_blocked(g, w, h, sr - 1, sc),
    ensures
        pass1_row_from(g, w, h, sr - 1, col) == g,
    decreases w - col,
{
    lemma_flat_idx_bounds(w, h, sr - 1, col);
    if col < sc {
        assert(g[flat_idx(w, sr - 1, col)] == CellType::Rock || g[flat_idx(w, sr - 1, col)]
            == CellType::Empty);
        lemma_blocked_water_row(g, w, h, col + 1, sr, sc);
    } else {
        assert(pass1_cell(g, w, h, sr - 1, sc) == (g, false));
        lemma_inert_tail_pass1_row(g, w, h, sr - 1, sc + 1);
    }
}

/// Scanning the sand's row performs exactly the one exchange with the
/// water below.
proof fn lemma_sand_over_water_row(g: Seq<CellType>, w: int, h: int, col: int, sr: int, sc: int)
    requires
        g.len() == w * h,
        1 <= sr < h,
        0 <= col <= sc,
        sc < w,
        g[flat_idx(w, sr, sc)] == CellType::Sand,
        g[flat_idx(w, sr - 1, sc)] == CellType::Water,
        inert_except_pair(g, w, h, sr, sc, sr - 1, sc),
    ensures
        pass1_row_from(g, w, h, sr, col) == swap_cells(
            g,
            flat_idx(w, sr, sc),
            flat_idx(w, sr - 1, sc),
        ),
    decreases w - col,
{
    lemma_flat_idx_bounds(w, h, sr, col);
    if col < sc {
        assert(g[flat_idx(w, sr, col)] == CellType::Rock || g[flat_idx(w, sr, col)]
            == CellType::Empty);
        lemma_sand_over_water_row(g, w, h, col + 1, sr, sc);
    } else {
        let gs = swap_cells(g, flat_idx(w, sr, sc), flat_idx(w, sr - 1, sc));
        lemma_flat_idx_bounds(w, h, sr - 1, sc);
        assert(pass1_cell(g, w, h, sr, sc) == (gs, false));
        lemma_sand_water_swap_shape(g, w, h, sr, sc);
        assert forall|c: int|
            sc + 1 <= c < w implies (gs[flat_idx(w, sr, c)] == CellType::Rock || gs[flat_idx(
            w,
            sr,
            c,
        )] == CellType::Empty) by {
            lemma_flat_idx_bounds(w, h, sr, c);
            lemma_flat_idx_injective(w, sr, c, sr, sc);
            lemma_flat_idx_injective(w, sr, c, sr - 1, sc);
        }
        lemma_inert_tail_pass1_row(gs, w, h, sr, sc + 1);
    }
}

/// The falling pass from any row at or below the water performs exactly
/// the sand's one exchange with the water.
proof fn lemma_sand_over_water_pass1_from(
    g: Seq<CellType>,
    w: int,
    h: int,
    row: int,
    sr: int,
    sc: int,
)
    requires
        g.len() == w * h,
        1 <= sr < h,
        0 <= sc < w,
        0 <= row <= sr,
        g[flat_idx(w, sr, sc)] == CellType::Sand,
        g[flat_idx(w, sr - 1, sc)] == CellType::Water,
        inert_except_pair(g, w, h, sr, sc, sr - 1, sc),
        water_blocked(g, w, h, sr - 1, sc),
    ensures
        pass1_from_row(g, w, h, row) == swap_cells(
            g,
            flat_idx(w, sr, sc),
            flat_idx(w, sr - 1, sc),
        ),
    decreases h - row,
{
    if row < sr - 1 {
        lemma_inert_tail_pass1_row(g, w, h, row, 0);
        lemma_sand_over_water_pass1_from(g, w, h, row + 1, sr, sc);
    } else if row == sr - 1 {
        lemma_blocked_water_row(g, w, h, 0, sr, sc);
        lemma_sand_over_water_pass1_from(g, w, h, row + 1, sr, sc);
    } else {
        let gs = swap_cells(g, flat_idx(w, sr, sc), flat_idx(w, sr - 1, sc));
        lemma_sand_over_water_row(g, w, h, 0, sr, sc);
        lemma_sand_water_swap_shape(g, w, h, sr, sc);
        lemma_pair_inert_pass1_rows_above(gs, w, h, sr + 1, sr, sc, sr - 1, sc);
    }
}

/// Law: a sand cell directly above a water cell that itself has nowhere
/// to flow, in a grid whose every other cell is rock or empty, swaps
/// with the water in one step: the sand sinks and the water appears
/// exactly where the sand was. If the water can flow, the scan moves it
/// away before the sand's row is reached and no swap happens, which is
/// why the premise pins the water down.
pub proof fn lemma_sand_sinks_through_water(g: Seq<CellType>, w: int, h: int, sr: int, sc: int)
    requires
        0 < w,
        0 < h,
        g.len() == w * h,
        1 <= sr < h,
        0 <= sc < w,
        g[flat_idx(w, sr, sc)] == CellType::Sand,
        g[flat_idx(w, sr - 1, sc)] == CellType::Water,
        inert_except_pair(g, w, h, sr, sc, sr - 1, sc),
        water_blocked(g, w, h, sr - 1, sc),
    ensures
        step_spec(g, w, h) == swap_cells(g, flat_idx(w, sr, sc), flat_idx(w, sr - 1, sc)),
        step_spec(g, w, h)[flat_idx(w, sr - 1, sc)] == CellType::Sand,
        step_spec(g, w, h)[flat_idx(w, sr, sc)] == CellType::Water,
{
    let gs = swap_cells(g, flat_idx(w, sr, sc), flat_idx(w, sr - 1, sc));
    lemma_sand_over_water_pass1_from(g, w, h, 0, sr, sc);
    lemma_sand_water_swap_shape(g, w, h, sr, sc);
    lemma_no_smoke_pass2_down(gs, w, h, h - 1);
}

/// Law: stepping an all-empty grid twice yields the all-empty grid again.
pub proof fn lemma_step_twice_all_empty(g: Seq<CellType>, w: int, h: int)
    requires
        0 < w,
        0 < h,
        g.len() == w * h,
        all_empty(g),
    ensures
        step_spec(step_spec(g, w, h), w, h) == g,
{
    lemma_step_fixes_all_empty(g, w, h);
}

} // verus!
