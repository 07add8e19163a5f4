use falling_sand::cell::CellType;
use falling_sand::grid::Grid;
use falling_sand::paint::{paint, resolve_pointer};
use falling_sand::selector::TypeSelector;

#[test]
fn paint_at_a_corner_sets_exactly_four_cells() {
    let mut grid = Grid::new(4, 4);
    paint(&mut grid, 0, 0, CellType::Sand);
    let mut painted: usize = 0;
    for row in 0..4 {
        for col in 0..4 {
            if grid.get(row, col) != CellType::Empty {
                painted += 1;
            }
        }
    }
    assert_eq!(painted, 4);
    assert_eq!(grid.get(0, 0), CellType::Sand);
    assert_eq!(grid.get(0, 1), CellType::Sand);
    assert_eq!(grid.get(1, 0), CellType::Sand);
    assert_eq!(grid.get(1, 1), CellType::Sand);
}

#[test]
fn paint_in_the_interior_sets_the_full_brush() {
    let mut grid = Grid::new(5, 5);
    paint(&mut grid, 2, 2, CellType::Water);
    for row in 1..4 {
        for col in 1..4 {
            assert_eq!(grid.get(row, col), CellType::Water);
        }
    }
    assert_eq!(grid.get(0, 0), CellType::Empty);
    assert_eq!(grid.get(2, 4), CellType::Empty);
}

#[test]
fn painting_empty_erases() {
    let mut grid = Grid::new(5, 5);
    paint(&mut grid, 2, 2, CellType::Rock);
    paint(&mut grid, 2, 2, CellType::Empty);
    for row in 0..5 {
        for col in 0..5 {
            assert_eq!(grid.get(row, col), CellType::Empty);
        }
    }
}

#[test]
fn two_selections_paint_two_materials() {
    let mut grid = Grid::new(9, 9);
    let mut selector = TypeSelector::new();
    selector.select(CellType::Rock);
    paint(&mut grid, 2, 2, selector.current());
    selector.select(CellType::Sand);
    paint(&mut grid, 6, 6, selector.current());
    for row in 1..4 {
        for col in 1..4 {
            assert_eq!(grid.get(row, col), CellType::Rock);
        }
    }
    for row in 5..8 {
        for col in 5..8 {
            assert_eq!(grid.get(row, col), CellType::Sand);
        }
    }
}

#[test]
fn selector_starts_on_sand_and_overwrites() {
    let mut selector = TypeSelector::new();
    assert_eq!(selector.current(), CellType::Sand);
    selector.select(CellType::Smoke);
    assert_eq!(selector.current(), CellType::Smoke);
    selector.select(CellType::Empty);
    assert_eq!(selector.current(), CellType::Empty);
}

#[test]
fn palette_indices_round_trip() {
    let all = [
        CellType::Empty,
        CellType::Sand,
        CellType::Water,
        CellType::Rock,
        CellType::Smoke,
    ];
    for (i, t) in all.iter().enumerate() {
        assert_eq!(t.palette_index(), i);
        assert_eq!(CellType::from_palette_index(i), Some(*t));
    }
    assert_eq!(CellType::from_palette_index(5), None);
    assert_eq!(CellType::from_palette_index(usize::MAX), None);
}

#[test]
fn pointer_at_the_origin_lands_near_the_grid_centre() {
    assert_eq!(resolve_pointer(0, 0, 128, 128), Some((65, 65)));
}

#[test]
fn pointer_far_outside_the_grid_is_rejected() {
    assert_eq!(resolve_pointer(100, 0, 128, 128), None);
    assert_eq!(resolve_pointer(0, 100, 128, 128), None);
    assert_eq!(resolve_pointer(-70, 0, 128, 128), None);
    assert_eq!(resolve_pointer(0, -70, 128, 128), None);
}

#[test]
fn pointer_just_inside_the_edges_is_accepted() {
    assert_eq!(resolve_pointer(-65, -65, 128, 128), Some((0, 0)));
    assert_eq!(resolve_pointer(62, 62, 128, 128), Some((127, 127)));
}
