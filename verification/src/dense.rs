//! The plain bounded board: one bit per cell, and a fresh count of every
//! cell's live neighbours at each generation.
use vstd::prelude::*;
use crate::bits::{bit_at, cleared, lower_all, read_bit, words_for, write_bit};
use crate::bounds::{BoardError, grid, in_grid, index_of, pattern, lemma_coordinates_in_store, lemma_index_in_store, lemma_index_injective, point_in_grid, store_index};
use crate::cell::{Cell, plane, in_reading_order, listed, lemma_listed_next, lemma_listed_prefix};
use crate::random::coin_flips;
use crate::rules::{Point, with_cell, live_neighbors, live_neighbors_before, next_generation, next_generation_within, next_state};

verus! {

/// A board of fixed size with hard edges, stored as one bit per cell.
pub struct DenseRescanBoard {
    width: usize,
    height: usize,
    bits: Vec<u64>,
}

impl View for DenseRescanBoard {
    type V = Set<Point>;

    /// The live points.
    closed spec fn view(&self) -> Set<Point> {
        Set::new(
            |p: Point|
                in_grid(self.width as int, self.height as int, p) && bit_at(
                    self.bits@,
                    index_of(self.width as int, p),
                ),
        )
    }
}

impl DenseRescanBoard {
    /// The number of columns.
    pub closed spec fn spec_width(&self) -> usize {
        self.width
    }

    /// The number of rows.
    pub closed spec fn spec_height(&self) -> usize {
        self.height
    }

    /// The store holds one bit for each cell of the board.
    pub closed spec fn wf(&self) -> bool {
        &&& self.bits.len() == words_for(self.width * self.height)
        &&& self.width * self.height <= isize::MAX
    }

    /// The points of this board.
    pub open spec fn window(&self) -> Set<Point> {
        grid(self.width() as int, self.height() as int)
    }

    /// Only points of the board are alive.
    pub proof fn lemma_alive_in_window(&self)
        ensures
            self@.subset_of(self.window()),
    {
    }

    /// Every point of the board can be named by a `Cell`.
    pub proof fn lemma_window_in_plane(&self)
        requires
            self.wf(),
        ensures
            self.window().subset_of(plane()),
    {
        assert forall|p: Point| self.window().contains(p) implies plane().contains(p) by {
            lemma_coordinates_in_store(self.width as int, self.height as int, p);
        }
    }

    /// A board of `width` by `height` cells, all dead.
    pub fn new(width: usize, height: usize) -> (board: Self)
        requires
            width * height <= isize::MAX,
        ensures
            board.wf(),
            board.width() == width,
            board.height() == height,
            board@ == Set::<Point>::empty(),
    {
        let board = DenseRescanBoard { width: width, height: height, bits: cleared(width * height) };
        assert forall|p: Point| !board@.contains(p) by {
            if in_grid(width as int, height as int, p) {
                lemma_index_in_store(width as int, height as int, p);
            }
        }
        assert(board@ =~= Set::<Point>::empty());
        board
    }

    /// The number of columns.
    #[verifier::when_used_as_spec(spec_width)]
    pub fn width(&self) -> (width: usize)
        ensures
            width == self.spec_width(),
    {
        self.width
    }

    /// The number of rows.
    #[verifier::when_used_as_spec(spec_height)]
    pub fn height(&self) -> (height: usize)
        ensures
            height == self.spec_height(),
    {
        self.height
    }

    /// Whether `(x, y)` is a cell of the board.
    pub fn check_point(&self, x: i64, y: i64) -> (inside: bool)
        ensures
            inside == self.window().contains((x as int, y as int)),
    {
        point_in_grid(self.width, self.height, x, y)
    }

    /// Whether the cell at `(x, y)` is alive.
    pub fn get(&self, x: i64, y: i64) -> (alive: bool)
        requires
            self.wf(),
            self.window().contains((x as int, y as int)),
        ensures
            alive == self@.contains((x as int, y as int)),
    {
        let i = store_index(self.width, self.height, x, y);
        read_bit(&self.bits, i)
    }

    /// Makes the cell at `(x, y)` alive or dead.
    pub fn set(&mut self, x: i64, y: i64, value: bool)
        requires
            old(self).wf(),
            old(self).window().contains((x as int, y as int)),
        ensures
            final(self).wf(),
            final(self).width() == old(self).width(),
            final(self).height() == old(self).height(),
            final(self)@ == with_cell(old(self)@, (x as int, y as int), value),
    {
        let ghost p: Point = (x as int, y as int);
        let i = store_index(self.width, self.height, x, y);
        write_bit(&mut self.bits, i, value);
        proof {
            let expected = if value {
                old(self)@.insert(p)
            } else {
                old(self)@.remove(p)
            };
            assert forall|q: Point| self@.contains(q) == expected.contains(q) by {
                if in_grid(self.width as int, self.height as int, q) && q != p {
                    lemma_index_in_store(self.width as int, self.height as int, q);
                    if index_of(self.width as int, q) == index_of(self.width as int, p) {
                        lemma_index_injective(self.width as int, self.height as int, p, q);
                    }
                }
            }
            assert(self@ =~= expected);
        }
    }

    /// Whether the cell at `(x, y)` is alive, for coordinates that may lie
    /// off the board.
    pub fn try_get(&self, x: i64, y: i64) -> (result: Result<bool, BoardError>)
        requires
            self.wf(),
        ensures
            result == (if self.window().contains((x as int, y as int)) {
                Ok::<bool, BoardError>(self@.contains((x as int, y as int)))
            } else {
                Err::<bool, BoardError>(BoardError::OutOfBounds)
            }),
    {
        if self.check_point(x, y) {
            Ok(self.get(x, y))
        } else {
            Err(BoardError::OutOfBounds)
        }
    }

    /// Makes the cell at `(x, y)` alive or dead, for coordinates that may
    /// lie off the board; off the board nothing changes.
    pub fn try_set(&mut self, x: i64, y: i64, value: bool) -> (result: Result<(), BoardError>)
        requires
            old(self).wf(),
        ensures
            final(self).wf(),
            final(self).width() == old(self).width(),
            final(self).height() == old(self).height(),
            result == (if old(self).window().contains((x as int, y as int)) {
                Ok::<(), BoardError>(())
            } else {
                Err::<(), BoardError>(BoardError::OutOfBounds)
            }),
            final(self)@ == (if result is Ok {
                with_cell(old(self)@, (x as int, y as int), value)
            } else {
                old(self)@
            }),
    {
        if self.check_point(x, y) {
            self.set(x, y, value);
            Ok(())
        } else {
            Err(BoardError::OutOfBounds)
        }
    }

    /// Kills every cell.
    pub fn clear(&mut self)
        requires
            old(self).wf(),
        ensures
            final(self).wf(),
            final(self).width() == old(self).width(),
            final(self).height() == old(self).height(),
            final(self)@ == Set::<Point>::empty(),
    {
        lower_all(&mut self.bits);
        proof {
            assert forall|p: Point| !self@.contains(p) by {
                if in_grid(self.width as int, self.height as int, p) {
                    lemma_index_in_store(self.width as int, self.height as int, p);
                }
            }
            assert(self@ =~= Set::<Point>::empty());
        }
    }

    /// Counts the live neighbours of the cell at `(x, y)` by looking at each
    /// of the eight places around it; those off the board count as dead.
    pub fn count_live_neighbors(&self, x: i64, y: i64) -> (count: u8)
        requires
            self.wf(),
            self.window().contains((x as int, y as int)),
        ensures
            count == live_neighbors(self@, (x as int, y as int)),
    {
        let ghost p: Point = (x as int, y as int);
        proof {
            lemma_coordinates_in_store(self.width as int, self.height as int, p);
        }
        let mut count: u8 = 0;
        let mut dy: i64 = -1;
        while dy <= 1
            invariant
                self.wf(),
                p == (x as int, y as int),
                0 <= x < isize::MAX,
                0 <= y < isize::MAX,
                -1 <= dy <= 2,
                count == live_neighbors_before(self@, p, (dy + 1) * 3),
            decreases 2 - dy,
        {
            let mut dx: i64 = -1;
            while dx <= 1
                invariant
                    self.wf(),
                    p == (x as int, y as int),
                    0 <= x < isize::MAX,
                    0 <= y < isize::MAX,
                    -1 <= dy <= 1,
                    -1 <= dx <= 2,
                    count == live_neighbors_before(self@, p, (dy + 1) * 3 + (dx + 1)),
                decreases 2 - dx,
            {
                if (dx != 0 || dy != 0) && self.check_point(x + dx, y + dy) && self.get(
                    x + dx,
                    y + dy,
                ) {
                    count = count + 1;
                }
                dx = dx + 1;
            }
            dy = dy + 1;
        }
        count
    }

    /// A copy of the board as it stands.
    pub fn snapshot(&self) -> (copy: Self)
        ensures
            copy@ == self@,
            copy.width() == self.width(),
            copy.height() == self.height(),
            copy.wf() == self.wf(),
    {
        let copy = DenseRescanBoard {
            width: self.width,
            height: self.height,
            bits: self.bits.clone(),
        };
        assert(copy.bits@ =~= self.bits@);
        copy
    }

    /// Advances the board by one generation.
    ///
    /// Every cell is judged against a copy of the board taken before any
    /// cell changes.
    pub fn step(&mut self)
        requires
            old(self).wf(),
        ensures
            final(self).wf(),
            final(self).width() == old(self).width(),
            final(self).height() == old(self).height(),
            final(self)@ == next_generation_within(old(self)@, old(self).window()),
    {
        let snapshot = self.snapshot();
        let width = self.width;
        let height = self.height;
        for row in 0..height
            invariant
                self.wf(),
                snapshot.wf(),
                snapshot@ == old(self)@,
                width == self.width == snapshot.width == old(self).width,
                height == self.height == snapshot.height == old(self).height,
                forall|q: Point|
                    in_grid(width as int, height as int, q) && q.1 < row ==> (
                    #[trigger] self@.contains(q) == next_generation(snapshot@).contains(q)),
        {
            for col in 0..width
                invariant
                    row < height,
                    self.wf(),
                    snapshot.wf(),
                    snapshot@ == old(self)@,
                    width == self.width == snapshot.width == old(self).width,
                    height == self.height == snapshot.height == old(self).height,
                    forall|q: Point|
                        in_grid(width as int, height as int, q) && (q.1 < row || (q.1 == row && q.0
                            < col)) ==> (#[trigger] self@.contains(q) == next_generation(
                            snapshot@,
                        ).contains(q)),
            {
                proof {
                    lemma_coordinates_in_store(
                        width as int,
                        height as int,
                        (col as int, row as int),
                    );
                }
                let x = col as i64;
                let y = row as i64;
                let neighbor_count = snapshot.count_live_neighbors(x, y);
                let alive = snapshot.get(x, y);
                self.set(x, y, next_state(alive, neighbor_count));
            }
        }
        proof {
            assert(self@ =~= next_generation_within(old(self)@, old(self).window()));
        }
    }

    /// The live cells, each once, row by row.
    pub fn iter_live_cells(&self) -> (cells: Vec<Cell>)
        requires
            self.wf(),
        ensures
            cells@.no_duplicates(),
            in_reading_order(cells@),
            forall|p: Point| self@.contains(p) <==> #[trigger] listed(cells@, cells@.len() as int, p),
    {
        let mut cells: Vec<Cell> = Vec::new();
        let width = self.width;
        let height = self.height;
        for row in 0..height
            invariant
                self.wf(),
                width == self.width,
                height == self.height,
                forall|i: int| 0 <= i < cells.len() ==> (#[trigger] cells[i]).y < row,
                forall|i: int, j: int|
                    0 <= i < j < cells.len() ==> (#[trigger] cells[i]).y < (#[trigger] cells[j]).y
                        || (cells[i].y == cells[j].y && cells[i].x < cells[j].x),
                forall|p: Point|
                    (self@.contains(p) && p.1 < row) <==> #[trigger] listed(
                        cells@,
                        cells@.len() as int,
                        p,
                    ),
        {
            for col in 0..width
                invariant
                    row < height,
                    self.wf(),
                    width == self.width,
                    height == self.height,
                    forall|i: int|
                        0 <= i < cells.len() ==> (#[trigger] cells[i]).y < row || (cells[i].y == row
                            && cells[i].x < col),
                    forall|i: int, j: int|
                        0 <= i < j < cells.len() ==> (#[trigger] cells[i]).y < (
                        #[trigger] cells[j]).y || (cells[i].y == cells[j].y && cells[i].x
                            < cells[j].x),
                    forall|p: Point|
                        (self@.contains(p) && (p.1 < row || (p.1 == row && p.0 < col)))
                            <==> #[trigger] listed(cells@, cells@.len() as int, p),
            {
                proof {
                    lemma_coordinates_in_store(
                        width as int,
                        height as int,
                        (col as int, row as int),
                    );
                }
                let x = col as i64;
                let y = row as i64;
                let ghost before = cells@;
                let ghost here: Point = (col as int, row as int);
                if self.get(x, y) {
                    cells.push(Cell { x: x, y: y });
                    proof {
                        assert(cells@[before.len() as int]@ == here);
                        assert forall|p: Point|
                            (self@.contains(p) && (p.1 < row || (p.1 == row && p.0 < col + 1)))
                                <==> #[trigger] listed(cells@, cells@.len() as int, p) by {
                            lemma_listed_next(cells@, before.len() as int, p);
                            lemma_listed_prefix(cells@, before, before.len() as int, p);
                        }
                    }
                } else {
                    proof {
                        assert forall|p: Point|
                            (self@.contains(p) && (p.1 < row || (p.1 == row && p.0 < col + 1)))
                                <==> #[trigger] listed(cells@, cells@.len() as int, p) by {
                            assert(listed(before, before.len() as int, p) ==> p != here);
                        }
                    }
                }
            }
        }
        cells
    }

    /// Makes each cell alive or dead as `flips` says, read row by row.
    pub fn fill(&mut self, flips: &Vec<bool>)
        requires
            old(self).wf(),
            flips.len() == old(self).width() * old(self).height(),
        ensures
            final(self).wf(),
            final(self).width() == old(self).width(),
            final(self).height() == old(self).height(),
            final(self)@ == pattern(flips@, old(self).width() as int, old(self).height() as int),
    {
        let width = self.width;
        let height = self.height;
        for row in 0..height
            invariant
                self.wf(),
                width == self.width == old(self).width,
                height == self.height == old(self).height,
                flips.len() == width * height,
                forall|q: Point|
                    in_grid(width as int, height as int, q) && q.1 < row ==> (
                    #[trigger] self@.contains(q) == flips@[index_of(width as int, q)]),
        {
            for col in 0..width
                invariant
                    row < height,
                    self.wf(),
                    width == self.width == old(self).width,
                    height == self.height == old(self).height,
                    flips.len() == width * height,
                    forall|q: Point|
                        in_grid(width as int, height as int, q) && (q.1 < row || (q.1 == row && q.0
                            < col)) ==> (#[trigger] self@.contains(q) == flips@[index_of(
                            width as int,
                            q,
                        )]),
            {
                proof {
                    lemma_coordinates_in_store(
                        width as int,
                        height as int,
                        (col as int, row as int),
                    );
                }
                let x = col as i64;
                let y = row as i64;
                let i = store_index(width, height, x, y);
                self.set(x, y, flips[i]);
            }
        }
        proof {
            assert(self@ =~= pattern(flips@, width as int, height as int));
        }
    }

    /// Gives every cell the outcome of a coin flip of its own.
    ///
    /// Panics if the operating system cannot seed the random generator.
    pub fn randomize(&mut self)
        requires
            old(self).wf(),
        ensures
            final(self).wf(),
            final(self).width() == old(self).width(),
            final(self).height() == old(self).height(),
    {
        let flips = coin_flips(self.width * self.height);
        self.fill(&flips);
    }
}

} // verus!
