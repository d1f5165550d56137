//! What the three boards have in common: one interface, under which any of
//! them can be driven without knowing how it stores its cells.
use vstd::prelude::*;
use crate::cached::DenseCachedBoard;
use crate::cell::{Cell, listed};
use crate::dense::DenseRescanBoard;
use crate::grid::LifeBoard;
use crate::rules::{Point, evolve_within, next_generation_within, with_cell};

verus! {

/// A board of the game.
pub trait Board: Sized {
    /// The live points.
    spec fn cells(&self) -> Set<Point>;

    /// The points of the board.
    spec fn window(&self) -> Set<Point>;

    /// The board is as its own operations leave it.
    spec fn wf(&self) -> bool;

    /// Whether the cell at `(x, y)` is alive.
    fn get(&self, x: i64, y: i64) -> (alive: bool)
        requires
            self.wf(),
            self.window().contains((x as int, y as int)),
        ensures
            alive == self.cells().contains((x as int, y as int)),
    ;

    /// Makes the cell at `(x, y)` alive or dead.
    fn set(&mut self, x: i64, y: i64, value: bool)
        requires
            old(self).wf(),
            old(self).window().contains((x as int, y as int)),
        ensures
            final(self).wf(),
            final(self).window() == old(self).window(),
            final(self).cells() == with_cell(old(self).cells(), (x as int, y as int), value),
    ;

    /// Kills every cell.
    fn clear(&mut self)
        requires
            old(self).wf(),
        ensures
            final(self).wf(),
            final(self).window() == old(self).window(),
            final(self).cells() == Set::<Point>::empty(),
    ;

    /// Advances the board by one generation.
    fn step(&mut self)
        requires
            old(self).wf(),
        ensures
            final(self).wf(),
            final(self).window() == old(self).window(),
            final(self).cells() == next_generation_within(old(self).cells(), old(self).window()),
    ;

    /// The live cells, each once.
    fn iter_live_cells(&self) -> (cells: Vec<Cell>)
        requires
            self.wf(),
        ensures
            cells@.no_duplicates(),
            forall|p: Point|
                self.cells().contains(p) <==> #[trigger] listed(cells@, cells@.len() as int, p),
    ;
}

impl Board for LifeBoard {
    open spec fn cells(&self) -> Set<Point> {
        self@
    }

    open spec fn window(&self) -> Set<Point> {
        LifeBoard::window(self)
    }

    open spec fn wf(&self) -> bool {
        LifeBoard::wf(self)
    }

    fn get(&self, x: i64, y: i64) -> (alive: bool) {
        LifeBoard::get(self, x, y)
    }

    fn set(&mut self, x: i64, y: i64, value: bool) {
        LifeBoard::set(self, x, y, value)
    }

    fn clear(&mut self) {
        LifeBoard::clear(self)
    }

    fn step(&mut self) {
        LifeBoard::step(self)
    }

    fn iter_live_cells(&self) -> (cells: Vec<Cell>) {
        LifeBoard::iter_live_cells(self)
    }
}

impl Board for DenseRescanBoard {
    open spec fn cells(&self) -> Set<Point> {
        self@
    }

    open spec fn window(&self) -> Set<Point> {
        DenseRescanBoard::window(self)
    }

    open spec fn wf(&self) -> bool {
        DenseRescanBoard::wf(self)
    }

    fn get(&self, x: i64, y: i64) -> (alive: bool) {
        DenseRescanBoard::get(self, x, y)
    }

    fn set(&mut self, x: i64, y: i64, value: bool) {
        DenseRescanBoard::set(self, x, y, value)
    }

    fn clear(&mut self) {
        DenseRescanBoard::clear(self)
    }

    fn step(&mut self) {
        DenseRescanBoard::step(self)
    }

    fn iter_live_cells(&self) -> (cells: Vec<Cell>) {
        DenseRescanBoard::iter_live_cells(self)
    }
}

impl Board for DenseCachedBoard {
    open spec fn cells(&self) -> Set<Point> {
        self@
    }

    open spec fn window(&self) -> Set<Point> {
        DenseCachedBoard::window(self)
    }

    open spec fn wf(&self) -> bool {
        DenseCachedBoard::wf(self)
    }

    fn get(&self, x: i64, y: i64) -> (alive: bool) {
        DenseCachedBoard::get(self, x, y)
    }

    fn set(&mut self, x: i64, y: i64, value: bool) {
        DenseCachedBoard::set(self, x, y, value)
    }

    fn clear(&mut self) {
        DenseCachedBoard::clear(self)
    }

    fn step(&mut self) {
        DenseCachedBoard::step(self)
    }

    fn iter_live_cells(&self) -> (cells: Vec<Cell>) {
        DenseCachedBoard::iter_live_cells(self)
    }
}

/// Advances any board by `generations` generations.
pub fn advance<B: Board>(board: &mut B, generations: u64)
    requires
        old(board).wf(),
    ensures
        final(board).wf(),
        final(board).window() == old(board).window(),
        final(board).cells() == evolve_within(
            old(board).cells(),
            old(board).window(),
            generations as nat,
        ),
{
    let mut done: u64 = 0;
    while done < generations
        invariant
            done <= generations,
            board.wf(),
            board.window() == old(board).window(),
            board.cells() == evolve_within(old(board).cells(), old(board).window(), done as nat),
        decreases generations - done,
    {
        board.step();
        done = done + 1;
    }
}

} // verus!
