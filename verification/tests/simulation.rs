use falling_sand::cell::CellType;
use falling_sand::engine::step;
use falling_sand::grid::Grid;

fn count(grid: &Grid, t: CellType) -> usize {
    let mut n: usize = 0;
    for row in 0..grid.height() {
        for col in 0..grid.width() {
            if grid.get(row, col) == t {
                n += 1;
            }
        }
    }
    n
}

#[test]
fn new_grid_is_all_empty() {
    let grid = Grid::new(4, 3);
    assert_eq!(grid.width(), 4);
    assert_eq!(grid.height(), 3);
    for row in 0..3 {
        for col in 0..4 {
            assert_eq!(grid.get(row, col), CellType::Empty);
        }
    }
}

#[test]
fn sand_with_empty_below_falls_straight_down() {
    let mut grid = Grid::new(3, 3);
    grid.set(1, 1, CellType::Sand);
    step(&mut grid);
    assert_eq!(grid.get(0, 1), CellType::Sand);
    assert_eq!(grid.get(1, 1), CellType::Empty);
}

#[test]
fn sand_swaps_with_water_below() {
    let mut grid = Grid::new(1, 2);
    grid.set(0, 0, CellType::Water);
    grid.set(1, 0, CellType::Sand);
    step(&mut grid);
    assert_eq!(grid.get(0, 0), CellType::Sand);
    assert_eq!(grid.get(1, 0), CellType::Water);
}

#[test]
fn sand_prefers_down_left_over_down_right() {
    let mut grid = Grid::new(3, 2);
    grid.set(0, 1, CellType::Rock);
    grid.set(1, 1, CellType::Sand);
    step(&mut grid);
    assert_eq!(grid.get(0, 0), CellType::Sand);
    assert_eq!(grid.get(0, 2), CellType::Empty);
    assert_eq!(grid.get(1, 1), CellType::Empty);
}

#[test]
fn water_enclosed_by_rock_is_unchanged() {
    let mut grid = Grid::new(3, 3);
    for row in 0..3 {
        for col in 0..3 {
            grid.set(row, col, CellType::Rock);
        }
    }
    grid.set(1, 1, CellType::Water);
    step(&mut grid);
    assert_eq!(grid.get(1, 1), CellType::Water);
    for row in 0..3 {
        for col in 0..3 {
            if (row, col) != (1, 1) {
                assert_eq!(grid.get(row, col), CellType::Rock);
            }
        }
    }
}

#[test]
fn water_falls_before_flowing_sideways() {
    let mut grid = Grid::new(3, 3);
    grid.set(1, 1, CellType::Water);
    step(&mut grid);
    assert_eq!(grid.get(0, 1), CellType::Water);
    assert_eq!(grid.get(1, 1), CellType::Empty);
}

#[test]
fn water_flowing_right_moves_one_column_per_tick() {
    let mut grid = Grid::new(4, 2);
    for col in 0..4 {
        grid.set(0, col, CellType::Rock);
    }
    grid.set(1, 0, CellType::Water);
    step(&mut grid);
    assert_eq!(grid.get(1, 0), CellType::Empty);
    assert_eq!(grid.get(1, 1), CellType::Water);
    assert_eq!(grid.get(1, 2), CellType::Empty);
    assert_eq!(grid.get(1, 3), CellType::Empty);
}

#[test]
fn water_prefers_down_left_over_down_right() {
    let mut grid = Grid::new(3, 2);
    grid.set(0, 1, CellType::Rock);
    grid.set(1, 1, CellType::Water);
    step(&mut grid);
    assert_eq!(grid.get(0, 0), CellType::Water);
    assert_eq!(grid.get(0, 2), CellType::Empty);
    assert_eq!(grid.get(1, 1), CellType::Empty);
}

#[test]
fn smoke_drifting_right_moves_one_column_per_tick() {
    let mut grid = Grid::new(4, 2);
    grid.set(1, 0, CellType::Rock);
    grid.set(1, 1, CellType::Rock);
    grid.set(0, 0, CellType::Smoke);
    step(&mut grid);
    assert_eq!(grid.get(0, 0), CellType::Empty);
    assert_eq!(grid.get(0, 1), CellType::Smoke);
    assert_eq!(grid.get(1, 2), CellType::Empty);
    assert_eq!(grid.get(0, 2), CellType::Empty);
}

#[test]
fn smoke_rises_into_empty_cell_above() {
    let mut grid = Grid::new(1, 3);
    grid.set(1, 0, CellType::Smoke);
    step(&mut grid);
    assert_eq!(grid.get(2, 0), CellType::Smoke);
    assert_eq!(grid.get(1, 0), CellType::Empty);
}

#[test]
fn smoke_on_top_row_stays_put() {
    let mut grid = Grid::new(3, 3);
    grid.set(2, 1, CellType::Smoke);
    step(&mut grid);
    assert_eq!(grid.get(2, 1), CellType::Smoke);
    assert_eq!(grid.get(2, 0), CellType::Empty);
    assert_eq!(grid.get(2, 2), CellType::Empty);
}

#[test]
fn rock_never_moves() {
    let mut grid = Grid::new(3, 3);
    grid.set(2, 1, CellType::Rock);
    step(&mut grid);
    assert_eq!(grid.get(2, 1), CellType::Rock);
    assert_eq!(count(&grid, CellType::Rock), 1);
}

#[test]
fn step_preserves_the_count_of_every_type() {
    let mut grid = Grid::new(5, 5);
    grid.set(4, 0, CellType::Sand);
    grid.set(4, 1, CellType::Sand);
    grid.set(3, 1, CellType::Water);
    grid.set(2, 2, CellType::Water);
    grid.set(1, 2, CellType::Rock);
    grid.set(0, 3, CellType::Smoke);
    grid.set(2, 4, CellType::Smoke);
    let before: Vec<usize> = [
        CellType::Empty,
        CellType::Sand,
        CellType::Water,
        CellType::Rock,
        CellType::Smoke,
    ]
    .iter()
    .map(|t| count(&grid, *t))
    .collect();
    step(&mut grid);
    let after: Vec<usize> = [
        CellType::Empty,
        CellType::Sand,
        CellType::Water,
        CellType::Rock,
        CellType::Smoke,
    ]
    .iter()
    .map(|t| count(&grid, *t))
    .collect();
    assert_eq!(before, after);
}

#[test]
fn step_introduces_no_type_absent_from_the_input() {
    let mut grid = Grid::new(4, 4);
    grid.set(3, 1, CellType::Sand);
    grid.set(3, 2, CellType::Sand);
    step(&mut grid);
    assert_eq!(count(&grid, CellType::Water), 0);
    assert_eq!(count(&grid, CellType::Rock), 0);
    assert_eq!(count(&grid, CellType::Smoke), 0);
    assert_eq!(count(&grid, CellType::Sand), 2);
}

#[test]
fn stepping_an_empty_grid_twice_leaves_it_empty() {
    let mut grid = Grid::new(5, 5);
    step(&mut grid);
    step(&mut grid);
    for row in 0..5 {
        for col in 0..5 {
            assert_eq!(grid.get(row, col), CellType::Empty);
        }
    }
}
