use rust_life::board::{advance, Board};
use rust_life::cached::DenseCachedBoard;
use rust_life::dense::DenseRescanBoard;
use rust_life::grid::LifeBoard;

fn draw<B: Board>(board: &mut B, cells: &[(i64, i64)]) {
    for &(x, y) in cells {
        Board::set(board, x, y, true);
    }
}

fn sorted_cells<B: Board>(board: &B) -> Vec<(i64, i64)> {
    let mut cells: Vec<(i64, i64)> =
        Board::iter_live_cells(board).iter().map(|c| (c.x, c.y)).collect();
    cells.sort();
    cells
}

fn glider_after_four<B: Board>(mut board: B) -> Vec<(i64, i64)> {
    draw(&mut board, &[(3, 4), (4, 4), (5, 4), (5, 3), (4, 2)]);
    advance(&mut board, 4);
    sorted_cells(&board)
}

#[test]
fn every_board_plays_the_same_glider() {
    let expected = vec![(4, 5), (5, 3), (5, 5), (6, 4), (6, 5)];
    assert_eq!(glider_after_four(LifeBoard::new()), expected);
    assert_eq!(glider_after_four(DenseRescanBoard::new(12, 12)), expected);
    assert_eq!(glider_after_four(DenseCachedBoard::new(12, 12)), expected);
}

#[test]
fn advance_by_nothing_changes_nothing() {
    let mut board = DenseCachedBoard::new(5, 5);
    draw(&mut board, &[(1, 1), (2, 1), (3, 1)]);
    advance(&mut board, 0);
    assert_eq!(sorted_cells(&board), vec![(1, 1), (2, 1), (3, 1)]);
}

#[test]
fn advance_is_step_after_step() {
    let mut stepped = LifeBoard::new();
    let mut advanced = LifeBoard::new();
    let acorn = [(0, 0), (1, 0), (1, 2), (3, 1), (4, 0), (5, 0), (6, 0)];
    draw(&mut stepped, &acorn);
    draw(&mut advanced, &acorn);
    for _ in 0..37 {
        stepped.step();
    }
    advance(&mut advanced, 37);
    assert_eq!(sorted_cells(&advanced), sorted_cells(&stepped));
}

#[test]
fn the_interface_reads_and_clears() {
    let mut board = DenseRescanBoard::new(4, 4);
    draw(&mut board, &[(0, 0), (3, 3)]);
    assert_eq!(Board::get(&board, 0, 0), true);
    assert_eq!(Board::get(&board, 1, 0), false);
    Board::set(&mut board, 0, 0, false);
    assert_eq!(sorted_cells(&board), vec![(3, 3)]);
    Board::step(&mut board);
    assert!(sorted_cells(&board).is_empty());
    draw(&mut board, &[(2, 2)]);
    Board::clear(&mut board);
    assert!(sorted_cells(&board).is_empty());
}
