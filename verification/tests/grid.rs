use puzzle15::grid::{is_adjacent, Grid, EMPTY_TILE, GRID_SIZE, NUM_TILES};

const SOLVED: [u8; 16] = [1, 2, 3, 4, 5, 6, 7, 8, 9, 10, 11, 12, 13, 14, 15, 0];

fn assert_valid(grid: &Grid) {
    let tiles = grid.tiles();
    let mut seen = [false; 16];
    for &t in tiles.iter() {
        assert!((t as usize) < 16, "tile value out of range: {}", t);
        assert!(!seen[t as usize], "tile value twice: {}", t);
        seen[t as usize] = true;
    }
    assert_eq!(tiles.iter().filter(|&&t| t == 0).count(), 1);
    let (col, row) = grid.empty_pos();
    assert!(col < 4 && row < 4);
    assert_eq!(tiles[row * 4 + col], 0);
}

#[test]
fn constants_describe_a_four_by_four_grid() {
    assert_eq!(GRID_SIZE, 4);
    assert_eq!(NUM_TILES, GRID_SIZE * GRID_SIZE);
    assert_eq!(EMPTY_TILE, 0);
}

#[test]
fn new_grid_is_solved() {
    let grid = Grid::new();
    assert_eq!(grid.tiles(), SOLVED);
    assert_eq!(grid.empty_pos(), (3, 3));
    assert_eq!(grid.moves(), 0);
    assert_valid(&grid);
}

#[test]
fn reset_restores_solved_sequence_and_clears_moves() {
    let mut grid = Grid::new();
    assert!(grid.try_move((3, 2)));
    assert!(grid.try_move((2, 2)));
    assert!(grid.try_move((2, 1)));
    assert_eq!(grid.moves(), 3);
    assert_ne!(grid.tiles(), SOLVED);
    grid.reset();
    assert_eq!(grid.tiles(), SOLVED);
    assert_eq!(grid.empty_pos(), (3, 3));
    assert_eq!(grid.moves(), 0);
    assert_valid(&grid);
}

#[test]
fn reset_after_swap_of_distant_cells() {
    let mut grid = Grid::new();
    grid.swap((0, 0), (2, 1));
    grid.reset();
    assert_eq!(grid.tiles(), SOLVED);
    assert_eq!(grid.moves(), 0);
}

#[test]
fn tile_at_reads_row_major() {
    let grid = Grid::new();
    assert_eq!(grid.tile_at((0, 0)), 1);
    assert_eq!(grid.tile_at((3, 0)), 4);
    assert_eq!(grid.tile_at((0, 1)), 5);
    assert_eq!(grid.tile_at((2, 3)), 15);
    assert_eq!(grid.tile_at((3, 3)), 0);
    for row in 0..4 {
        for col in 0..4 {
            assert_eq!(grid.tile_at((col, row)), SOLVED[row * 4 + col]);
        }
    }
}

#[test]
fn corner_cells_have_two_neighbors() {
    assert_eq!(Grid::neighbors_of((0, 0)), vec![(1, 0), (0, 1)]);
    assert_eq!(Grid::neighbors_of((3, 0)), vec![(2, 0), (3, 1)]);
    assert_eq!(Grid::neighbors_of((0, 3)), vec![(1, 3), (0, 2)]);
    assert_eq!(Grid::neighbors_of((3, 3)), vec![(2, 3), (3, 2)]);
}

#[test]
fn edge_cells_have_three_neighbors() {
    assert_eq!(Grid::neighbors_of((1, 0)), vec![(0, 0), (2, 0), (1, 1)]);
    assert_eq!(Grid::neighbors_of((0, 2)), vec![(1, 2), (0, 1), (0, 3)]);
    assert_eq!(Grid::neighbors_of((3, 1)), vec![(2, 1), (3, 0), (3, 2)]);
    assert_eq!(Grid::neighbors_of((2, 3)), vec![(1, 3), (3, 3), (2, 2)]);
}

#[test]
fn interior_cells_have_four_neighbors() {
    assert_eq!(Grid::neighbors_of((1, 1)), vec![(0, 1), (2, 1), (1, 0), (1, 2)]);
    assert_eq!(Grid::neighbors_of((2, 2)), vec![(1, 2), (3, 2), (2, 1), (2, 3)]);
}

#[test]
fn neighbor_counts_over_the_whole_grid() {
    for row in 0..4usize {
        for col in 0..4usize {
            let on_col_border = col == 0 || col == 3;
            let on_row_border = row == 0 || row == 3;
            let expected = match (on_col_border, on_row_border) {
                (true, true) => 2,
                (false, false) => 4,
                _ => 3,
            };
            let found = Grid::neighbors_of((col, row));
            assert_eq!(found.len(), expected);
            for n in found {
                assert!(n.0 < 4 && n.1 < 4);
                assert!(is_adjacent(n, (col, row)));
            }
        }
    }
}

#[test]
fn neighbors_of_a_position_off_the_grid() {
    assert_eq!(Grid::neighbors_of((4, 2)), vec![(3, 2)]);
    assert_eq!(Grid::neighbors_of((1, 4)), vec![(1, 3)]);
    assert_eq!(Grid::neighbors_of((4, 4)), Vec::<(usize, usize)>::new());
    assert_eq!(Grid::neighbors_of((9, 0)), Vec::<(usize, usize)>::new());
    assert_eq!(Grid::neighbors_of((usize::MAX, usize::MAX)), Vec::<(usize, usize)>::new());
}

#[test]
fn adjacency_is_orthogonal_distance_one() {
    assert!(is_adjacent((3, 2), (3, 3)));
    assert!(is_adjacent((3, 3), (3, 2)));
    assert!(is_adjacent((2, 3), (3, 3)));
    assert!(is_adjacent((0, 0), (1, 0)));
    assert!(!is_adjacent((2, 2), (3, 3)));
    assert!(!is_adjacent((3, 3), (3, 3)));
    assert!(!is_adjacent((1, 3), (3, 3)));
    assert!(!is_adjacent((3, 1), (3, 3)));
    assert!(!is_adjacent((0, 0), (usize::MAX, 0)));
}

#[test]
fn swap_exchanges_two_tiles_and_keeps_the_empty_slot() {
    let mut grid = Grid::new();
    grid.swap((0, 0), (1, 0));
    assert_eq!(grid.tile_at((0, 0)), 2);
    assert_eq!(grid.tile_at((1, 0)), 1);
    assert_eq!(grid.empty_pos(), (3, 3));
    assert_eq!(grid.moves(), 0);
    assert_valid(&grid);
}

#[test]
fn swap_with_the_empty_slot_moves_it() {
    let mut grid = Grid::new();
    grid.swap((3, 3), (0, 0));
    assert_eq!(grid.tile_at((3, 3)), 1);
    assert_eq!(grid.tile_at((0, 0)), 0);
    assert_eq!(grid.empty_pos(), (0, 0));
    assert_valid(&grid);
    grid.swap((2, 1), (0, 0));
    assert_eq!(grid.tile_at((0, 0)), 7);
    assert_eq!(grid.tile_at((2, 1)), 0);
    assert_eq!(grid.empty_pos(), (2, 1));
    assert_eq!(grid.moves(), 0);
    assert_valid(&grid);
}

#[test]
fn swap_of_a_cell_with_itself_changes_nothing() {
    let mut grid = Grid::new();
    grid.swap((3, 3), (3, 3));
    assert_eq!(grid.tiles(), SOLVED);
    assert_eq!(grid.empty_pos(), (3, 3));
    grid.swap((1, 2), (1, 2));
    assert_eq!(grid.tiles(), SOLVED);
    assert_eq!(grid.empty_pos(), (3, 3));
}

#[test]
fn try_move_succeeds_exactly_on_neighbors_of_the_empty_slot() {
    for row in 0..4usize {
        for col in 0..4usize {
            let mut grid = Grid::new();
            let before = grid.tiles();
            let moved = grid.try_move((col, row));
            let adjacent = (col, row) == (3, 2) || (col, row) == (2, 3);
            assert_eq!(moved, adjacent, "target ({}, {})", col, row);
            if moved {
                assert_eq!(grid.moves(), 1);
                assert_eq!(grid.empty_pos(), (col, row));
                assert_eq!(grid.tile_at((3, 3)), before[row * 4 + col]);
                assert_eq!(grid.tile_at((col, row)), 0);
            } else {
                assert_eq!(grid.moves(), 0);
                assert_eq!(grid.empty_pos(), (3, 3));
                assert_eq!(grid.tiles(), before);
            }
            assert_valid(&grid);
        }
    }
}

#[test]
fn try_move_from_an_interior_empty_slot() {
    let mut grid = Grid::new();
    assert!(grid.try_move((3, 2)));
    assert!(grid.try_move((2, 2)));
    assert!(grid.try_move((2, 1)));
    assert_eq!(grid.empty_pos(), (2, 1));
    assert_eq!(grid.moves(), 3);
    for row in 0..4usize {
        for col in 0..4usize {
            let mut probe = Grid::new();
            probe.try_move((3, 2));
            probe.try_move((2, 2));
            probe.try_move((2, 1));
            let before = probe.tiles();
            let moved = probe.try_move((col, row));
            let expected = [(1, 1), (3, 1), (2, 0), (2, 2)].contains(&(col, row));
            assert_eq!(moved, expected);
            if moved {
                assert_eq!(probe.moves(), 4);
                assert_eq!(probe.tile_at((2, 1)), before[row * 4 + col]);
            } else {
                assert_eq!(probe.moves(), 3);
                assert_eq!(probe.tiles(), before);
            }
        }
    }
}

#[test]
fn try_move_off_the_grid_is_refused() {
    let mut grid = Grid::new();
    assert!(!grid.try_move((4, 3)));
    assert!(!grid.try_move((3, 4)));
    assert!(!grid.try_move((usize::MAX, 3)));
    assert_eq!(grid.tiles(), SOLVED);
    assert_eq!(grid.empty_pos(), (3, 3));
    assert_eq!(grid.moves(), 0);
}

#[test]
fn try_move_on_the_empty_slot_itself_is_refused() {
    let mut grid = Grid::new();
    assert!(!grid.try_move((3, 3)));
    assert_eq!(grid.moves(), 0);
    assert_eq!(grid.tiles(), SOLVED);
}

#[test]
fn moving_a_tile_and_back_restores_the_board_and_counts_twice() {
    let mut grid = Grid::new();
    assert!(grid.try_move((2, 3)));
    assert_eq!(
        grid.tiles(),
        [1, 2, 3, 4, 5, 6, 7, 8, 9, 10, 11, 12, 13, 14, 0, 15]
    );
    assert!(grid.try_move((3, 3)));
    assert_eq!(grid.tiles(), SOLVED);
    assert_eq!(grid.empty_pos(), (3, 3));
    assert_eq!(grid.moves(), 2);
}

#[test]
fn tiles_stay_a_permutation_through_every_mutator() {
    let mut grid = Grid::new();
    assert_valid(&grid);
    assert!(grid.try_move((2, 3)));
    assert_valid(&grid);
    assert!(!grid.try_move((0, 0)));
    assert_valid(&grid);
    grid.swap((0, 0), (3, 1));
    assert_valid(&grid);
    grid.swap((2, 3), (1, 1));
    assert_valid(&grid);
    assert_eq!(grid.empty_pos(), (1, 1));
    assert!(grid.click(150, 50, 400, 400));
    assert_valid(&grid);
    assert!(!grid.click(350, 350, 400, 400));
    assert_valid(&grid);
    assert!(grid.shuffle_step(Some((1, 1))));
    assert_valid(&grid);
    assert!(!grid.shuffle_step(Some((3, 3))));
    assert_valid(&grid);
    grid.shuffle();
    assert_valid(&grid);
    grid.reset();
    assert_valid(&grid);
    assert_eq!(grid.tiles(), SOLVED);
}
