use game_of_life::grid::Grid;
use game_of_life::grid::GridError;
use game_of_life::life::live_neighbors;
use game_of_life::life::next_state;
use game_of_life::life::update;

fn grid_with(width: usize, height: usize, live: &[(usize, usize)]) -> Grid {
    let mut grid = Grid::new(width, height).unwrap();
    for &(x, y) in live {
        grid.set(x, y, true);
    }
    grid
}

fn live_cells(grid: &Grid) -> Vec<(usize, usize)> {
    let mut found = Vec::new();
    for y in 0..grid.height() {
        for x in 0..grid.width() {
            if grid.get(x, y) {
                found.push((x, y));
            }
        }
    }
    found
}

#[test]
fn new_grid_is_dead() {
    let grid = Grid::new(5, 3).unwrap();
    assert_eq!(grid.width(), 5);
    assert_eq!(grid.height(), 3);
    assert_eq!(grid.cell_count(), 15);
    assert!(live_cells(&grid).is_empty());
}

#[test]
fn new_rejects_zero_width() {
    assert_eq!(Grid::new(0, 4), Err(GridError::InvalidDimensions));
}

#[test]
fn new_rejects_zero_height() {
    assert_eq!(Grid::new(4, 0), Err(GridError::InvalidDimensions));
}

#[test]
fn from_cells_is_row_major() {
    let grid = Grid::from_cells(3, 2, vec![true, false, false, false, false, true]).unwrap();
    assert_eq!(grid.width(), 3);
    assert_eq!(grid.height(), 2);
    assert_eq!(live_cells(&grid), vec![(0, 0), (2, 1)]);
}

#[test]
fn from_cells_rejects_wrong_count() {
    assert_eq!(Grid::from_cells(2, 2, vec![true, false, true]), Err(GridError::InvalidDimensions));
    assert_eq!(Grid::from_cells(2, 2, vec![false; 5]), Err(GridError::InvalidDimensions));
}

#[test]
fn from_cells_rejects_zero_dimensions() {
    assert_eq!(Grid::from_cells(0, 3, vec![]), Err(GridError::InvalidDimensions));
    assert_eq!(Grid::from_cells(3, 0, vec![]), Err(GridError::InvalidDimensions));
}

#[test]
fn from_cells_rejects_overflowing_dimensions() {
    assert_eq!(Grid::from_cells(usize::MAX, 2, vec![false; 4]), Err(GridError::InvalidDimensions));
}

#[test]
fn set_changes_one_cell() {
    let mut grid = Grid::new(4, 3).unwrap();
    grid.set(2, 1, true);
    assert_eq!(live_cells(&grid), vec![(2, 1)]);
    grid.set(3, 2, true);
    grid.set(2, 1, false);
    assert_eq!(live_cells(&grid), vec![(3, 2)]);
    assert_eq!(grid, Grid::from_cells(4, 3, {
        let mut cells = vec![false; 12];
        cells[11] = true;
        cells
    }).unwrap());
}

#[test]
fn step_keeps_dimensions() {
    let grid = grid_with(7, 4, &[(1, 1), (2, 1), (6, 3)]);
    let next = update(&grid);
    assert_eq!(next.width(), 7);
    assert_eq!(next.height(), 4);
    assert_eq!(next.cell_count(), 28);
}

#[test]
fn step_leaves_its_input_alone() {
    let grid = grid_with(5, 5, &[(1, 2), (2, 2), (3, 2)]);
    let before = grid.clone();
    let _ = update(&grid);
    assert_eq!(grid, before);
}

#[test]
fn step_is_deterministic() {
    let a = grid_with(6, 6, &[(1, 0), (2, 1), (0, 2), (1, 2), (2, 2)]);
    let b = a.clone();
    assert_eq!(update(&a), update(&b));
    assert_eq!(update(&a), update(&a));
}

#[test]
fn opposite_corner_sees_origin() {
    let grid = grid_with(5, 4, &[(0, 0)]);
    assert_eq!(live_neighbors(&grid, 4, 3), 1);
    assert_eq!(live_neighbors(&grid, 4, 0), 1);
    assert_eq!(live_neighbors(&grid, 0, 3), 1);
    assert_eq!(live_neighbors(&grid, 1, 1), 1);
    assert_eq!(live_neighbors(&grid, 0, 0), 0);
    assert_eq!(live_neighbors(&grid, 2, 2), 0);
    assert_eq!(live_neighbors(&grid, 3, 3), 0);
}

#[test]
fn every_edge_wraps() {
    let grid = grid_with(4, 4, &[(3, 1), (1, 3), (0, 2), (2, 0)]);
    assert_eq!(live_neighbors(&grid, 0, 1), 2);
    assert_eq!(live_neighbors(&grid, 1, 0), 2);
    assert_eq!(live_neighbors(&grid, 3, 3), 2);
    assert_eq!(live_neighbors(&grid, 3, 2), 2);
}

#[test]
fn block_is_still() {
    let grid = grid_with(6, 6, &[(2, 2), (3, 2), (2, 3), (3, 3)]);
    assert_eq!(live_neighbors(&grid, 2, 2), 3);
    assert_eq!(live_neighbors(&grid, 4, 2), 2);
    assert_eq!(live_neighbors(&grid, 4, 4), 1);
    let next = update(&grid);
    assert_eq!(next, grid);
    assert_eq!(update(&next), grid);
}

#[test]
fn block_in_smallest_grid_is_still() {
    let grid = grid_with(4, 4, &[(0, 0), (1, 0), (0, 1), (1, 1)]);
    assert_eq!(update(&grid), grid);
}

#[test]
fn isolated_cell_dies() {
    let grid = grid_with(5, 5, &[(2, 2)]);
    assert_eq!(live_neighbors(&grid, 2, 2), 0);
    assert!(!next_state(&grid, 2, 2));
    let next = update(&grid);
    assert!(!next.get(2, 2));
    assert!(live_cells(&next).is_empty());
}

#[test]
fn three_neighbours_give_birth() {
    let grid = grid_with(5, 5, &[(1, 1), (2, 1), (3, 1)]);
    assert!(!grid.get(2, 2));
    assert_eq!(live_neighbors(&grid, 2, 2), 3);
    assert!(next_state(&grid, 2, 2));
    assert!(update(&grid).get(2, 2));
}

#[test]
fn two_neighbours_give_no_birth() {
    let grid = grid_with(5, 5, &[(1, 1), (3, 1)]);
    assert!(!grid.get(2, 2));
    assert_eq!(live_neighbors(&grid, 2, 2), 2);
    assert!(!next_state(&grid, 2, 2));
    assert!(!update(&grid).get(2, 2));
}

#[test]
fn two_neighbours_keep_a_live_cell() {
    let grid = grid_with(5, 5, &[(1, 1), (2, 2), (3, 3)]);
    assert_eq!(live_neighbors(&grid, 2, 2), 2);
    assert!(next_state(&grid, 2, 2));
    assert_eq!(live_cells(&update(&grid)), vec![(2, 2)]);
}

#[test]
fn four_neighbours_kill() {
    let grid = grid_with(5, 5, &[(2, 2), (1, 1), (3, 1), (1, 3), (3, 3)]);
    assert_eq!(live_neighbors(&grid, 2, 2), 4);
    assert!(!next_state(&grid, 2, 2));
    assert!(!update(&grid).get(2, 2));
}

#[test]
fn blinker_turns() {
    let flat = grid_with(5, 5, &[(1, 2), (2, 2), (3, 2)]);
    let upright = grid_with(5, 5, &[(2, 1), (2, 2), (2, 3)]);
    assert_eq!(update(&flat), upright);
    assert_eq!(update(&upright), flat);
}

#[test]
fn glider_crosses_the_edge() {
    let mut grid = grid_with(5, 5, &[(1, 0), (2, 1), (0, 2), (1, 2), (2, 2)]);
    for _ in 0..20 {
        grid = update(&grid);
    }
    assert_eq!(grid, grid_with(5, 5, &[(1, 0), (2, 1), (0, 2), (1, 2), (2, 2)]));
}

#[test]
fn single_cell_torus_counts_itself() {
    let mut grid = Grid::new(1, 1).unwrap();
    assert_eq!(live_neighbors(&grid, 0, 0), 0);
    grid.set(0, 0, true);
    assert_eq!(live_neighbors(&grid, 0, 0), 8);
    assert!(!update(&grid).get(0, 0));
}

#[test]
fn two_wide_torus_counts_a_neighbour_twice() {
    let grid = grid_with(2, 3, &[(1, 1)]);
    assert_eq!(live_neighbors(&grid, 0, 1), 2);
    assert_eq!(live_neighbors(&grid, 0, 0), 2);
    assert_eq!(live_neighbors(&grid, 1, 0), 1);
    assert_eq!(live_neighbors(&grid, 1, 1), 0);
}
