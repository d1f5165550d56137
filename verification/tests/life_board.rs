use rust_life::cell::Cell;
use rust_life::grid::LifeBoard;

#[test]
fn set_get() {
    let mut board = LifeBoard::new();

    board.set(1, 1, true);

    assert_eq!(board.get(1, 1), true);
}

#[test]
fn step_one_cell() {
    let mut board = LifeBoard::new();

    board.set(1, 1, true);

    assert_eq!(board.get(1, 1), true);

    board.step();

    assert_eq!(board.get(1, 1), false);
}

#[test]
fn update_neighbors_increment() {
    let mut board = LifeBoard::new();

    board.set(1, 1, true);

    assert_eq!(board.get_neighbor_count(0, 0), 1);
    assert_eq!(board.get_neighbor_count(1, 0), 1);
    assert_eq!(board.get_neighbor_count(2, 0), 1);
    assert_eq!(board.get_neighbor_count(0, 1), 1);
    assert_eq!(board.get_neighbor_count(1, 1), 0);
    assert_eq!(board.get_neighbor_count(2, 1), 1);
    assert_eq!(board.get_neighbor_count(0, 2), 1);
    assert_eq!(board.get_neighbor_count(1, 2), 1);
    assert_eq!(board.get_neighbor_count(2, 2), 1);
}

#[test]
fn update_neighbors_increment_decrement() {
    let mut board = LifeBoard::new();

    board.set(1, 1, true);

    assert_eq!(board.get_neighbor_count(0, 0), 1);
    assert_eq!(board.get_neighbor_count(1, 0), 1);
    assert_eq!(board.get_neighbor_count(2, 0), 1);
    assert_eq!(board.get_neighbor_count(0, 1), 1);
    assert_eq!(board.get_neighbor_count(1, 1), 0);
    assert_eq!(board.get_neighbor_count(2, 1), 1);
    assert_eq!(board.get_neighbor_count(0, 2), 1);
    assert_eq!(board.get_neighbor_count(1, 2), 1);
    assert_eq!(board.get_neighbor_count(2, 2), 1);

    board.set(1, 1, false);

    assert_eq!(board.get_neighbor_count(0, 0), 0);
    assert_eq!(board.get_neighbor_count(1, 0), 0);
    assert_eq!(board.get_neighbor_count(2, 0), 0);
    assert_eq!(board.get_neighbor_count(0, 1), 0);
    assert_eq!(board.get_neighbor_count(1, 1), 0);
    assert_eq!(board.get_neighbor_count(2, 1), 0);
    assert_eq!(board.get_neighbor_count(0, 2), 0);
    assert_eq!(board.get_neighbor_count(1, 2), 0);
    assert_eq!(board.get_neighbor_count(2, 2), 0);
}

#[test]
fn iter_live_cells() {
    let mut board = LifeBoard::new();

    board.set(1, 1, true);

    let cells = board.iter_live_cells();
    let mut board_iter = cells.iter();

    assert_eq!(board_iter.next(), Some(&Cell {
        x: 1,
        y: 1,
    }));
}
