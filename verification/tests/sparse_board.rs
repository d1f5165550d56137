use rust_life::cell::Cell;
use rust_life::grid::LifeBoard;

fn board_of(cells: &[(i64, i64)]) -> LifeBoard {
    let mut board = LifeBoard::new();
    for &(x, y) in cells {
        board.set(x, y, true);
    }
    board
}

fn sorted_cells(board: &LifeBoard) -> Vec<(i64, i64)> {
    let mut cells: Vec<(i64, i64)> = board.iter_live_cells().iter().map(|c| (c.x, c.y)).collect();
    cells.sort();
    cells
}

fn sorted_counts(board: &LifeBoard) -> Vec<(i64, i64, u8)> {
    let mut entries: Vec<(i64, i64, u8)> =
        board.iter_neighbor_counts().iter().map(|e| (e.0.x, e.0.y, e.1)).collect();
    entries.sort();
    entries
}

fn brute_force_count(board: &LifeBoard, x: i64, y: i64) -> u8 {
    let mut count = 0;
    for dy in -1..=1 {
        for dx in -1..=1 {
            if (dx != 0 || dy != 0) && board.get(x + dx, y + dy) {
                count += 1;
            }
        }
    }
    count
}

fn assert_counts_consistent(board: &LifeBoard, lo: i64, hi: i64) {
    for y in lo..=hi {
        for x in lo..=hi {
            assert_eq!(board.get_neighbor_count(x, y), brute_force_count(board, x, y));
        }
    }
}

#[test]
fn new_board_is_empty() {
    let board = LifeBoard::new();
    assert_eq!(board.get(0, 0), false);
    assert_eq!(board.get_neighbor_count(0, 0), 0);
    assert!(board.iter_live_cells().is_empty());
    assert!(board.iter_neighbor_counts().is_empty());
}

#[test]
fn cell_new_keeps_coordinates() {
    let cell = Cell::new(-3, 7);
    assert_eq!(cell, Cell { x: -3, y: 7 });
}

#[test]
fn get_neighbors_lists_all_eight_row_by_row() {
    let board = LifeBoard::new();
    let cells: Vec<(i64, i64)> = board.get_neighbors(5, -2).iter().map(|c| (c.x, c.y)).collect();
    assert_eq!(
        cells,
        vec![(4, -3), (5, -3), (6, -3), (4, -2), (6, -2), (4, -1), (5, -1), (6, -1)]
    );
}

#[test]
fn get_neighbors_on_the_rim_of_the_coordinates() {
    let board = LifeBoard::new();
    let corner: Vec<(i64, i64)> =
        board.get_neighbors(i64::MAX, i64::MIN).iter().map(|c| (c.x, c.y)).collect();
    assert_eq!(
        corner,
        vec![(i64::MAX - 1, i64::MIN), (i64::MAX - 1, i64::MIN + 1), (i64::MAX, i64::MIN + 1)]
    );
    assert_eq!(board.get_neighbors(0, i64::MAX).len(), 5);
}

#[test]
fn set_on_the_rim_counts_the_neighbors_that_exist() {
    let mut board = LifeBoard::new();
    board.set(i64::MIN, i64::MAX, true);
    assert_eq!(board.get(i64::MIN, i64::MAX), true);
    assert_eq!(board.get_neighbor_count(i64::MIN + 1, i64::MAX), 1);
    assert_eq!(board.get_neighbor_count(i64::MIN + 1, i64::MAX - 1), 1);
    assert_eq!(board.get_neighbor_count(i64::MIN, i64::MAX - 1), 1);
    assert_eq!(board.iter_neighbor_counts().len(), 3);
    board.step();
    assert!(board.iter_live_cells().is_empty());
    assert!(board.iter_neighbor_counts().is_empty());
}

#[test]
fn negative_coordinates_are_cells_like_any_other() {
    let mut board = board_of(&[(-1, -1), (0, -1), (1, -1)]);
    assert_eq!(board.get_neighbor_count(0, 0), 3);
    assert_eq!(board.get_neighbor_count(0, -2), 3);
    board.step();
    assert_eq!(sorted_cells(&board), vec![(0, -2), (0, -1), (0, 0)]);
}

#[test]
fn single_cell_gives_each_neighbor_one_and_dies() {
    let mut board = board_of(&[(1, 1)]);
    for y in 0..3 {
        for x in 0..3 {
            let expected = if x == 1 && y == 1 { 0 } else { 1 };
            assert_eq!(board.get_neighbor_count(x, y), expected);
        }
    }
    board.step();
    for y in 0..3 {
        for x in 0..3 {
            assert_eq!(board.get(x, y), false);
        }
    }
    assert!(board.iter_live_cells().is_empty());
}

#[test]
fn set_twice_changes_nothing_more() {
    let mut board = board_of(&[(0, 0), (1, 0), (5, 5)]);
    board.set(2, 1, true);
    let cells = sorted_cells(&board);
    let counts = sorted_counts(&board);
    board.set(2, 1, true);
    assert_eq!(sorted_cells(&board), cells);
    assert_eq!(sorted_counts(&board), counts);

    board.set(9, 9, false);
    assert_eq!(sorted_cells(&board), cells);
    assert_eq!(sorted_counts(&board), counts);
    board.set(9, 9, false);
    assert_eq!(sorted_cells(&board), cells);
    assert_eq!(sorted_counts(&board), counts);
}

#[test]
fn set_then_unset_restores_the_board() {
    let mut board = board_of(&[(0, 0), (1, 0), (2, 0), (2, 1), (1, 2)]);
    let cells = sorted_cells(&board);
    let counts = sorted_counts(&board);
    board.set(1, 1, true);
    assert_ne!(sorted_counts(&board), counts);
    board.set(1, 1, false);
    assert_eq!(sorted_cells(&board), cells);
    assert_eq!(sorted_counts(&board), counts);

    board.set(2, 0, false);
    board.set(2, 0, true);
    assert_eq!(sorted_cells(&board), cells);
    assert_eq!(sorted_counts(&board), counts);
}

#[test]
fn no_stored_count_is_zero() {
    let mut board = board_of(&[(0, 0), (1, 0), (1, 2), (3, 1), (4, 0), (5, 0), (6, 0)]);
    for _ in 0..40 {
        for entry in board.iter_neighbor_counts() {
            assert!(entry.1 > 0);
            assert_eq!(entry.1, brute_force_count(&board, entry.0.x, entry.0.y));
        }
        board.step();
    }
    for cell in board.iter_live_cells() {
        board.set(cell.x, cell.y, false);
    }
    assert!(board.iter_neighbor_counts().is_empty());
}

#[test]
fn stored_counts_of_a_pair() {
    let board = board_of(&[(0, 0), (1, 0)]);
    assert_eq!(
        sorted_counts(&board),
        vec![
            (-1, -1, 1),
            (-1, 0, 1),
            (-1, 1, 1),
            (0, -1, 2),
            (0, 0, 1),
            (0, 1, 2),
            (1, -1, 2),
            (1, 0, 1),
            (1, 1, 2),
            (2, -1, 1),
            (2, 0, 1),
            (2, 1, 1),
        ]
    );
}

#[test]
fn counts_stay_consistent_after_every_change() {
    let mut board = LifeBoard::new();
    let moves = [
        (0, 0, true),
        (1, 0, true),
        (1, 1, true),
        (0, 0, false),
        (2, 2, true),
        (1, 1, true),
        (-1, 0, true),
        (1, 0, false),
        (0, 1, true),
        (0, -1, true),
    ];
    for &(x, y, value) in &moves {
        board.set(x, y, value);
        assert_counts_consistent(&board, -4, 5);
    }
    for _ in 0..6 {
        board.step();
        assert_counts_consistent(&board, -8, 9);
    }
}

#[test]
fn clear_kills_everything() {
    let mut board = board_of(&[(0, 0), (1, 0), (2, 0)]);
    board.clear();
    assert!(board.iter_live_cells().is_empty());
    assert!(board.iter_neighbor_counts().is_empty());
    assert_eq!(board.get(1, 0), false);
    assert_eq!(board.get_neighbor_count(1, 1), 0);
}

#[test]
fn blinker_turns() {
    let mut board = board_of(&[(0, 1), (1, 1), (2, 1)]);
    board.step();
    assert_eq!(sorted_cells(&board), vec![(1, 0), (1, 1), (1, 2)]);
    board.step();
    assert_eq!(sorted_cells(&board), vec![(0, 1), (1, 1), (2, 1)]);
}

#[test]
fn block_is_still() {
    let mut board = board_of(&[(0, 0), (1, 0), (0, 1), (1, 1)]);
    board.step();
    assert_eq!(sorted_cells(&board), vec![(0, 0), (0, 1), (1, 0), (1, 1)]);
}

#[test]
fn crowded_cell_dies_and_three_neighbors_give_birth() {
    let mut board = board_of(&[(1, 1), (0, 0), (2, 0), (0, 2), (2, 2)]);
    assert_eq!(board.get_neighbor_count(1, 1), 4);
    assert_eq!(board.get_neighbor_count(1, 0), 3);
    board.step();
    assert_eq!(sorted_cells(&board), vec![(0, 1), (1, 0), (1, 2), (2, 1)]);
}

#[test]
fn glider_moves_one_cell_diagonally_in_four_generations() {
    let start = [(0, 0), (1, 0), (2, 0), (2, 1), (1, 2)];
    let mut board = board_of(&start);
    for _ in 0..4 {
        board.step();
    }
    let mut expected: Vec<(i64, i64)> = start.iter().map(|&(x, y)| (x + 1, y - 1)).collect();
    expected.sort();
    assert_eq!(sorted_cells(&board), expected);
}

#[test]
fn mirrored_glider_moves_by_one_and_one() {
    let start = [(0, 2), (1, 2), (2, 2), (2, 1), (1, 0)];
    let mut board = board_of(&start);
    for _ in 0..4 {
        board.step();
    }
    let mut expected: Vec<(i64, i64)> = start.iter().map(|&(x, y)| (x + 1, y + 1)).collect();
    expected.sort();
    assert_eq!(sorted_cells(&board), expected);
}

#[test]
fn acorn_settles_at_633_cells_after_5206_generations() {
    let mut board = board_of(&[(0, 0), (1, 0), (1, 2), (3, 1), (4, 0), (5, 0), (6, 0)]);
    for _ in 0..5204 {
        board.step();
    }
    assert_eq!(board.iter_live_cells().len(), 635);
    board.step();
    board.step();
    assert_eq!(board.iter_live_cells().len(), 633);
    for _ in 0..30 {
        board.step();
        assert_eq!(board.iter_live_cells().len(), 633);
    }
}

#[test]
fn live_cells_are_listed_once_each() {
    let board = board_of(&[(3, 4), (-7, 2), (0, 0), (3, 4), (100, -100)]);
    assert_eq!(sorted_cells(&board), vec![(-7, 2), (0, 0), (3, 4), (100, -100)]);
    assert_eq!(board.iter_live_cells().len(), 4);
}
