use rust_life::cached::DenseCachedBoard;
use rust_life::cell::neighbors_within;
use rust_life::bounds::BoardError;
use rust_life::dense::DenseRescanBoard;
use rust_life::grid::LifeBoard;

fn rescan_cells(board: &DenseRescanBoard) -> Vec<(i64, i64)> {
    board.iter_live_cells().iter().map(|c| (c.x, c.y)).collect()
}

fn cached_cells(board: &DenseCachedBoard) -> Vec<(i64, i64)> {
    board.iter_live_cells().iter().map(|c| (c.x, c.y)).collect()
}

fn sparse_cells(board: &LifeBoard) -> Vec<(i64, i64)> {
    let mut cells: Vec<(i64, i64)> = board.iter_live_cells().iter().map(|c| (c.x, c.y)).collect();
    cells.sort_by_key(|&(x, y)| (y, x));
    cells
}

fn brute_force_count(board: &DenseCachedBoard, x: i64, y: i64) -> u8 {
    let mut count = 0;
    for dy in -1..=1 {
        for dx in -1..=1 {
            if (dx != 0 || dy != 0)
                && board.check_point(x + dx, y + dy)
                && board.get(x + dx, y + dy)
            {
                count += 1;
            }
        }
    }
    count
}

fn assert_counts_consistent(board: &DenseCachedBoard) {
    for y in 0..board.height() as i64 {
        for x in 0..board.width() as i64 {
            assert_eq!(board.get_neighbor_count(x, y), brute_force_count(board, x, y));
        }
    }
}

#[test]
fn new_boards_have_their_size_and_no_life() {
    let rescan = DenseRescanBoard::new(4, 3);
    assert_eq!(rescan.width(), 4);
    assert_eq!(rescan.height(), 3);
    assert!(rescan.iter_live_cells().is_empty());
    let cached = DenseCachedBoard::new(4, 3);
    assert_eq!(cached.width(), 4);
    assert_eq!(cached.height(), 3);
    assert!(cached.iter_live_cells().is_empty());
    for y in 0..3 {
        for x in 0..4 {
            assert_eq!(rescan.get(x, y), false);
            assert_eq!(cached.get(x, y), false);
            assert_eq!(cached.get_neighbor_count(x, y), 0);
        }
    }
}

#[test]
fn check_point_accepts_the_grid_and_nothing_else() {
    let rescan = DenseRescanBoard::new(4, 3);
    let cached = DenseCachedBoard::new(4, 3);
    let cases = [
        (0, 0, true),
        (3, 2, true),
        (3, 0, true),
        (0, 2, true),
        (4, 0, false),
        (0, 3, false),
        (-1, 0, false),
        (0, -1, false),
        (4, 3, false),
        (i64::MAX, 0, false),
        (0, i64::MIN, false),
    ];
    for &(x, y, expected) in &cases {
        assert_eq!(rescan.check_point(x, y), expected);
        assert_eq!(cached.check_point(x, y), expected);
    }
}

#[test]
fn boards_without_cells() {
    let mut rescan = DenseRescanBoard::new(0, 5);
    assert_eq!(rescan.check_point(0, 0), false);
    rescan.step();
    rescan.clear();
    rescan.randomize();
    assert!(rescan.iter_live_cells().is_empty());
    let mut cached = DenseCachedBoard::new(7, 0);
    assert_eq!(cached.check_point(0, 0), false);
    cached.step();
    cached.clear();
    cached.randomize();
    assert!(cached.iter_live_cells().is_empty());
}

#[test]
fn set_and_get_address_one_cell() {
    let mut rescan = DenseRescanBoard::new(4, 3);
    let mut cached = DenseCachedBoard::new(4, 3);
    rescan.set(3, 1, true);
    cached.set(3, 1, true);
    for y in 0..3 {
        for x in 0..4 {
            assert_eq!(rescan.get(x, y), x == 3 && y == 1);
            assert_eq!(cached.get(x, y), x == 3 && y == 1);
        }
    }
    rescan.set(3, 1, false);
    cached.set(3, 1, false);
    assert!(rescan.iter_live_cells().is_empty());
    assert!(cached.iter_live_cells().is_empty());
}

#[test]
fn live_cells_come_row_by_row() {
    let mut rescan = DenseRescanBoard::new(4, 3);
    let mut cached = DenseCachedBoard::new(4, 3);
    for &(x, y) in &[(2, 2), (0, 0), (3, 1), (1, 0), (0, 2)] {
        rescan.set(x, y, true);
        cached.set(x, y, true);
    }
    let expected = vec![(0, 0), (1, 0), (3, 1), (0, 2), (2, 2)];
    assert_eq!(rescan_cells(&rescan), expected);
    assert_eq!(cached_cells(&cached), expected);
}

#[test]
fn single_cell_on_three_by_three() {
    let mut cached = DenseCachedBoard::new(3, 3);
    cached.set(1, 1, true);
    for y in 0..3 {
        for x in 0..3 {
            let expected = if x == 1 && y == 1 { 0 } else { 1 };
            assert_eq!(cached.get_neighbor_count(x, y), expected);
        }
    }
    cached.step();
    assert!(cached.iter_live_cells().is_empty());
    assert_counts_consistent(&cached);

    let mut rescan = DenseRescanBoard::new(3, 3);
    rescan.set(1, 1, true);
    for y in 0..3 {
        for x in 0..3 {
            let expected = if x == 1 && y == 1 { 0 } else { 1 };
            assert_eq!(rescan.count_live_neighbors(x, y), expected);
        }
    }
    rescan.step();
    assert!(rescan.iter_live_cells().is_empty());
}

#[test]
fn edges_are_hard() {
    let mut rescan = DenseRescanBoard::new(3, 3);
    let mut cached = DenseCachedBoard::new(3, 3);
    for &(x, y) in &[(0, 0), (0, 1), (0, 2)] {
        rescan.set(x, y, true);
        cached.set(x, y, true);
    }
    assert_eq!(rescan.count_live_neighbors(0, 0), 1);
    assert_eq!(rescan.count_live_neighbors(0, 1), 2);
    assert_eq!(rescan.count_live_neighbors(2, 1), 0);
    assert_eq!(cached.get_neighbor_count(0, 0), 1);
    assert_eq!(cached.get_neighbor_count(1, 1), 3);
    rescan.step();
    cached.step();
    assert_eq!(rescan_cells(&rescan), vec![(0, 1), (1, 1)]);
    assert_eq!(cached_cells(&cached), vec![(0, 1), (1, 1)]);
    rescan.step();
    cached.step();
    assert!(rescan.iter_live_cells().is_empty());
    assert!(cached.iter_live_cells().is_empty());
}

#[test]
fn corner_cell_has_three_neighbors() {
    let cached = DenseCachedBoard::new(5, 4);
    let corner: Vec<(i64, i64)> = cached.get_neighbors(4, 3).iter().map(|c| (c.x, c.y)).collect();
    assert_eq!(corner, vec![(3, 2), (4, 2), (3, 3)]);
    let edge: Vec<(i64, i64)> = cached.get_neighbors(0, 1).iter().map(|c| (c.x, c.y)).collect();
    assert_eq!(edge, vec![(0, 0), (1, 0), (1, 1), (0, 2), (1, 2)]);
    assert_eq!(cached.get_neighbors(2, 2).len(), 8);
}

#[test]
fn neighbors_within_a_rectangle() {
    let cells: Vec<(i64, i64)> =
        neighbors_within(0, 0, -1, 0, 0, 5).iter().map(|c| (c.x, c.y)).collect();
    assert_eq!(cells, vec![(-1, 0), (-1, 1), (0, 1)]);
    assert!(neighbors_within(0, 0, 3, 5, 3, 5).is_empty());
    assert!(neighbors_within(0, 0, 0, 0, 0, 0).is_empty());
}

#[test]
fn cached_set_twice_changes_nothing_more() {
    let mut cached = DenseCachedBoard::new(4, 4);
    cached.set(1, 1, true);
    cached.set(2, 1, true);
    let mut counts = Vec::new();
    for y in 0..4 {
        for x in 0..4 {
            counts.push(cached.get_neighbor_count(x, y));
        }
    }
    assert_eq!(counts, vec![1, 2, 2, 1, 1, 1, 1, 1, 1, 2, 2, 1, 0, 0, 0, 0]);
    cached.set(2, 1, true);
    cached.set(3, 3, false);
    let mut again = Vec::new();
    for y in 0..4 {
        for x in 0..4 {
            again.push(cached.get_neighbor_count(x, y));
        }
    }
    assert_eq!(again, counts);
    assert_eq!(cached_cells(&cached), vec![(1, 1), (2, 1)]);
}

#[test]
fn cached_set_then_unset_restores_the_counts() {
    let mut cached = DenseCachedBoard::new(4, 4);
    cached.set(0, 0, true);
    cached.set(3, 2, true);
    cached.set(1, 1, true);
    cached.set(1, 1, false);
    let mut counts = Vec::new();
    for y in 0..4 {
        for x in 0..4 {
            counts.push(cached.get_neighbor_count(x, y));
        }
    }
    assert_eq!(counts, vec![0, 1, 0, 0, 1, 1, 1, 1, 0, 0, 1, 0, 0, 0, 1, 1]);
    assert_eq!(cached_cells(&cached), vec![(0, 0), (3, 2)]);
}

#[test]
fn cached_counts_stay_consistent_after_every_change() {
    let mut cached = DenseCachedBoard::new(6, 5);
    let moves = [
        (0, 0, true),
        (5, 4, true),
        (1, 0, true),
        (1, 1, true),
        (0, 0, false),
        (2, 2, true),
        (3, 2, true),
        (2, 3, true),
        (5, 0, true),
        (5, 4, false),
    ];
    for &(x, y, value) in &moves {
        cached.set(x, y, value);
        assert_counts_consistent(&cached);
    }
    for _ in 0..5 {
        cached.step();
        assert_counts_consistent(&cached);
    }
    cached.clear();
    assert_counts_consistent(&cached);
    assert!(cached.iter_live_cells().is_empty());
}

#[test]
fn clear_kills_everything_and_keeps_the_size() {
    let mut rescan = DenseRescanBoard::new(3, 2);
    rescan.set(0, 0, true);
    rescan.set(2, 1, true);
    rescan.clear();
    assert!(rescan.iter_live_cells().is_empty());
    assert_eq!((rescan.width(), rescan.height()), (3, 2));
}

#[test]
fn randomize_keeps_the_size_and_the_counts_true() {
    let mut cached = DenseCachedBoard::new(9, 7);
    cached.randomize();
    assert_eq!((cached.width(), cached.height()), (9, 7));
    assert_counts_consistent(&cached);
    cached.step();
    assert_counts_consistent(&cached);

    let mut rescan = DenseRescanBoard::new(9, 7);
    rescan.randomize();
    assert_eq!((rescan.width(), rescan.height()), (9, 7));
    assert!(rescan.iter_live_cells().len() <= 63);
}

#[test]
fn randomize_gives_both_outcomes_on_a_large_board() {
    let mut rescan = DenseRescanBoard::new(64, 64);
    rescan.randomize();
    let alive = rescan.iter_live_cells().len();
    assert!(alive > 0);
    assert!(alive < 64 * 64);
    let mut cached = DenseCachedBoard::new(64, 64);
    cached.randomize();
    let alive = cached.iter_live_cells().len();
    assert!(alive > 0);
    assert!(alive < 64 * 64);
}

#[test]
fn snapshot_is_a_copy() {
    let mut rescan = DenseRescanBoard::new(3, 3);
    rescan.set(1, 2, true);
    let copy = rescan.snapshot();
    rescan.set(1, 2, false);
    assert_eq!(rescan_cells(&copy), vec![(1, 2)]);
    assert!(rescan.iter_live_cells().is_empty());

    let mut cached = DenseCachedBoard::new(3, 3);
    cached.set(1, 2, true);
    let copy = cached.snapshot();
    cached.set(1, 2, false);
    assert_eq!(cached_cells(&copy), vec![(1, 2)]);
    assert_eq!(copy.get_neighbor_count(1, 1), 1);
    assert_eq!(cached.get_neighbor_count(1, 1), 0);
}

#[test]
fn the_two_bounded_boards_agree_after_a_random_start() {
    let mut cached = DenseCachedBoard::new(12, 9);
    cached.randomize();
    let mut rescan = DenseRescanBoard::new(12, 9);
    for cell in cached.iter_live_cells() {
        rescan.set(cell.x, cell.y, true);
    }
    for _ in 0..25 {
        assert_eq!(rescan_cells(&rescan), cached_cells(&cached));
        rescan.step();
        cached.step();
    }
    assert_eq!(rescan_cells(&rescan), cached_cells(&cached));
}

#[test]
fn all_three_boards_agree_while_the_glider_stays_on_the_grid() {
    let start = [(3, 2), (4, 2), (5, 2), (5, 3), (4, 4)];
    let mut rescan = DenseRescanBoard::new(20, 20);
    let mut cached = DenseCachedBoard::new(20, 20);
    let mut sparse = LifeBoard::new();
    for &(x, y) in &start {
        rescan.set(x, y, true);
        cached.set(x, y, true);
        sparse.set(x, y, true);
    }
    for _ in 0..4 {
        let expected = sparse_cells(&sparse);
        assert_eq!(rescan_cells(&rescan), expected);
        assert_eq!(cached_cells(&cached), expected);
        rescan.step();
        cached.step();
        sparse.step();
    }
    let expected = vec![(4, 1), (5, 1), (6, 1), (6, 2), (5, 3)];
    assert_eq!(sparse_cells(&sparse), expected);
    assert_eq!(rescan_cells(&rescan), expected);
    assert_eq!(cached_cells(&cached), expected);
}

#[test]
fn one_generation_agrees_inside_the_grid_even_at_the_edge() {
    let mut rescan = DenseRescanBoard::new(3, 3);
    let mut sparse = LifeBoard::new();
    for &(x, y) in &[(0, 0), (0, 1), (0, 2)] {
        rescan.set(x, y, true);
        sparse.set(x, y, true);
    }
    rescan.step();
    sparse.step();
    assert_eq!(sparse_cells(&sparse), vec![(-1, 1), (0, 1), (1, 1)]);
    for y in 0..3 {
        for x in 0..3 {
            assert_eq!(rescan.get(x, y), sparse.get(x, y));
        }
    }
}

#[test]
fn coordinates_off_the_board_are_turned_down() {
    let mut rescan = DenseRescanBoard::new(4, 3);
    let mut cached = DenseCachedBoard::new(4, 3);
    rescan.set(3, 2, true);
    cached.set(3, 2, true);
    for &(x, y) in &[(4, 0), (0, 3), (-1, 0), (0, -1), (i64::MIN, i64::MAX)] {
        assert_eq!(rescan.try_get(x, y), Err(BoardError::OutOfBounds));
        assert_eq!(cached.try_get(x, y), Err(BoardError::OutOfBounds));
        assert_eq!(rescan.try_set(x, y, true), Err(BoardError::OutOfBounds));
        assert_eq!(cached.try_set(x, y, true), Err(BoardError::OutOfBounds));
    }
    assert_eq!(rescan_cells(&rescan), vec![(3, 2)]);
    assert_eq!(cached_cells(&cached), vec![(3, 2)]);
    assert_counts_consistent(&cached);
}

#[test]
fn coordinates_on_the_board_are_served() {
    let mut rescan = DenseRescanBoard::new(4, 3);
    let mut cached = DenseCachedBoard::new(4, 3);
    assert_eq!(rescan.try_get(3, 2), Ok(false));
    assert_eq!(cached.try_get(3, 2), Ok(false));
    assert_eq!(rescan.try_set(3, 2, true), Ok(()));
    assert_eq!(cached.try_set(3, 2, true), Ok(()));
    assert_eq!(rescan.try_get(3, 2), Ok(true));
    assert_eq!(cached.try_get(3, 2), Ok(true));
    assert_eq!(cached.get_neighbor_count(2, 1), 1);
    assert_eq!(rescan.try_set(3, 2, false), Ok(()));
    assert_eq!(cached.try_set(3, 2, false), Ok(()));
    assert!(rescan.iter_live_cells().is_empty());
    assert!(cached.iter_live_cells().is_empty());
    assert_eq!(cached.get_neighbor_count(2, 1), 0);
}

#[test]
fn fill_reads_the_flips_row_by_row() {
    let flips = vec![
        true, false, false, true, //
        false, false, true, false, //
        false, true, false, false,
    ];
    let mut rescan = DenseRescanBoard::new(4, 3);
    rescan.set(1, 1, true);
    rescan.fill(&flips);
    assert_eq!(rescan_cells(&rescan), vec![(0, 0), (3, 0), (2, 1), (1, 2)]);
    assert_eq!((rescan.width(), rescan.height()), (4, 3));

    let mut cached = DenseCachedBoard::new(4, 3);
    cached.set(1, 1, true);
    cached.fill(&flips);
    assert_eq!(cached_cells(&cached), vec![(0, 0), (3, 0), (2, 1), (1, 2)]);
    assert_counts_consistent(&cached);
    assert_eq!(cached.get_neighbor_count(2, 0), 2);
    assert_eq!(cached.get_neighbor_count(1, 1), 3);
}

#[test]
fn fill_with_nothing_alive_clears() {
    let mut cached = DenseCachedBoard::new(3, 2);
    cached.randomize();
    cached.fill(&vec![false; 6]);
    assert!(cached.iter_live_cells().is_empty());
    assert_counts_consistent(&cached);
    let mut rescan = DenseRescanBoard::new(3, 2);
    rescan.randomize();
    rescan.fill(&vec![false; 6]);
    assert!(rescan.iter_live_cells().is_empty());
}

#[test]
fn a_board_wider_than_a_word() {
    let mut rescan = DenseRescanBoard::new(70, 3);
    rescan.set(63, 0, true);
    rescan.set(64, 0, true);
    rescan.set(65, 0, true);
    rescan.set(69, 2, true);
    assert_eq!(rescan_cells(&rescan), vec![(63, 0), (64, 0), (65, 0), (69, 2)]);
    assert_eq!(rescan.count_live_neighbors(64, 1), 3);
    rescan.step();
    assert_eq!(rescan_cells(&rescan), vec![(64, 0), (64, 1)]);
    rescan.set(64, 0, false);
    assert_eq!(rescan_cells(&rescan), vec![(64, 1)]);
}
