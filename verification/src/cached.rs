//! The bounded board that remembers: each cell holds its state and the
//! number of its live neighbours, and every change of a cell is passed on to
//! the counts around it at once.
use vstd::prelude::*;
use crate::cell::{Cell, plane, in_block_order, in_reading_order, listed, lemma_listed_next, lemma_listed_prefix, neighbors_within};
use crate::bounds::{BoardError, grid, in_grid, index_of, pattern, lemma_coordinates_in_store, lemma_index_in_store, lemma_index_injective, point_in_grid, store_index};
use crate::random::coin_flips;
use crate::rules::{Point, with_cell, adjacent, flipped, live_neighbors, next_generation, next_generation_within, next_state, neighbors8, lemma_live_neighbors_is_cardinality, lemma_birth, lemma_death, lemma_live_neighbors_bound};

verus! {

/// What the board stores for one cell.
#[derive(Clone, Copy, Debug, PartialEq, Eq, Structural)]
pub struct CachedCell {
    pub alive: bool,
    pub neighbor_count: u8,
}

/// A board of fixed size with hard edges that keeps every cell's
/// live-neighbour count beside its state.
pub struct DenseCachedBoard {
    width: usize,
    height: usize,
    inner: Vec<CachedCell>,
}

impl View for DenseCachedBoard {
    type V = Set<Point>;

    /// The live points.
    closed spec fn view(&self) -> Set<Point> {
        Set::new(
            |p: Point|
                in_grid(self.width as int, self.height as int, p) && self.inner@[index_of(
                    self.width as int,
                    p,
                )].alive,
        )
    }
}

impl DenseCachedBoard {
    /// The number of columns.
    pub closed spec fn spec_width(&self) -> usize {
        self.width
    }

    /// The number of rows.
    pub closed spec fn spec_height(&self) -> usize {
        self.height
    }

    /// The store holds one entry for each cell of the board.
    pub closed spec fn shaped(&self) -> bool {
        &&& self.inner.len() == self.width * self.height
        &&& self.width * self.height <= isize::MAX
    }

    /// The live-neighbour count that the board holds for `p`.
    pub closed spec fn stored_count(&self, p: Point) -> nat {
        self.inner@[index_of(self.width as int, p)].neighbor_count as nat
    }

    /// The points of this board.
    pub open spec fn window(&self) -> Set<Point> {
        grid(self.width() as int, self.height() as int)
    }

    /// The board is consistent: the count held for each cell is the number
    /// of its live neighbours.
    pub open spec fn wf(&self) -> bool {
        &&& self.shaped()
        &&& forall|p: Point|
            self.window().contains(p) ==> #[trigger] self.stored_count(p) == live_neighbors(self@, p)
    }

    /// Only points of the board are alive.
    pub proof fn lemma_alive_in_window(&self)
        ensures
            self@.subset_of(self.window()),
    {
    }

    /// Every point of the board can be named by a `Cell`.
    pub proof fn lemma_window_in_plane(&self)
        requires
            self.shaped(),
        ensures
            self.window().subset_of(plane()),
    {
        assert forall|p: Point| self.window().contains(p) implies plane().contains(p) by {
            lemma_coordinates_in_store(self.width as int, self.height as int, p);
        }
    }

    /// On a consistent board the count held for a cell is the number of live
    /// points among its eight neighbours.
    pub proof fn lemma_counts_are_census(&self, p: Point)
        requires
            self.wf(),
            self.window().contains(p),
        ensures
            self.stored_count(p) == neighbors8(p).intersect(self@).len(),
    {
        lemma_live_neighbors_is_cardinality(self@, p);
    }

    /// A board of `width` by `height` cells, all dead.
    pub fn new(width: usize, height: usize) -> (board: Self)
        requires
            width * height <= isize::MAX,
        ensures
            board.wf(),
            board.width() == width,
            board.height() == height,
            board@ == Set::<Point>::empty(),
    {
        let board = DenseCachedBoard {
            width: width,
            height: height,
            inner: vec![CachedCell { alive: false, neighbor_count: 0 }; width * height],
        };
        proof {
            assert forall|p: Point| in_grid(width as int, height as int, p) implies !board.inner@[index_of(
                width as int,
                p,
            )].alive && board.inner@[index_of(width as int, p)].neighbor_count == 0 by {
                lemma_index_in_store(width as int, height as int, p);
            }
            assert(board@ =~= Set::<Point>::empty());
        }
        board
    }

    /// The number of columns.
    #[verifier::when_used_as_spec(spec_width)]
    pub fn width(&self) -> (width: usize)
        ensures
            width == self.spec_width(),
    {
        self.width
    }

    /// The number of rows.
    #[verifier::when_used_as_spec(spec_height)]
    pub fn height(&self) -> (height: usize)
        ensures
            height == self.spec_height(),
    {
        self.height
    }

    /// Whether `(x, y)` is a cell of the board.
    pub fn check_point(&self, x: i64, y: i64) -> (inside: bool)
        ensures
            inside == self.window().contains((x as int, y as int)),
    {
        point_in_grid(self.width, self.height, x, y)
    }

    /// Whether the cell at `(x, y)` is alive.
    pub fn get(&self, x: i64, y: i64) -> (alive: bool)
        requires
            self.shaped(),
            self.window().contains((x as int, y as int)),
        ensures
            alive == self@.contains((x as int, y as int)),
    {
        let i = store_index(self.width, self.height, x, y);
        self.inner[i].alive
    }

    /// The number of live neighbours of the cell at `(x, y)`, as the board
    /// holds it.
    pub fn get_neighbor_count(&self, x: i64, y: i64) -> (count: u8)
        requires
            self.wf(),
            self.window().contains((x as int, y as int)),
        ensures
            count == live_neighbors(self@, (x as int, y as int)),
    {
        let i = store_index(self.width, self.height, x, y);
        assert(self.stored_count((x as int, y as int)) == live_neighbors(self@, (x as int, y as int)));
        self.inner[i].neighbor_count
    }

    /// The neighbours of `(x, y)` that lie on the board, row by row.
    pub fn get_neighbors(&self, x: i64, y: i64) -> (cells: Vec<Cell>)
        requires
            self.shaped(),
            self.window().contains((x as int, y as int)),
        ensures
            cells@.no_duplicates(),
            cells.len() <= 8,
            in_block_order(cells@, (x as int, y as int)),
            forall|q: Point|
                (self.window().contains(q) && adjacent((x as int, y as int), q)) <==> #[trigger] listed(
                    cells@,
                    cells@.len() as int,
                    q,
                ),
    {
        proof {
            lemma_coordinates_in_store(self.width as int, self.height as int, (x as int, y as int));
        }
        neighbors_within(x, y, 0, (self.width - 1) as i64, 0, (self.height - 1) as i64)
    }

    /// Brings the held counts up to date after the cell at `(x, y)` has
    /// become `value`: each neighbour on the board gains or loses one.
    fn update_neighbors(&mut self, x: i64, y: i64, value: bool)
        requires
            old(self).shaped(),
            old(self).window().contains((x as int, y as int)),
            old(self)@.contains((x as int, y as int)) == value,
            forall|q: Point|
                old(self).window().contains(q) ==> #[trigger] old(self).stored_count(q)
                    == live_neighbors(flipped(old(self)@, (x as int, y as int)), q),
        ensures
            final(self).wf(),
            final(self).width() == old(self).width(),
            final(self).height() == old(self).height(),
            final(self)@ == old(self)@,
    {
        let ghost p: Point = (x as int, y as int);
        let ghost cur = self@;
        let ghost prev = flipped(cur, p);
        let cells = self.get_neighbors(x, y);
        let n = cells.len();
        for i in 0..n
            invariant
                n == cells.len(),
                p == (x as int, y as int),
                prev == flipped(cur, p),
                cur.contains(p) == value,
                self.shaped(),
                self.width == old(self).width,
                self.height == old(self).height,
                self@ == cur,
                cells@.no_duplicates(),
                forall|q: Point|
                    (self.window().contains(q) && adjacent(p, q)) <==> #[trigger] listed(
                        cells@,
                        cells@.len() as int,
                        q,
                    ),
                forall|q: Point|
                    self.window().contains(q) ==> #[trigger] self.stored_count(q) == (if listed(
                        cells@,
                        i as int,
                        q,
                    ) {
                        live_neighbors(cur, q)
                    } else {
                        live_neighbors(prev, q)
                    }),
        {
            let cell = cells[i];
            let ghost q0 = cell@;
            let ghost before = *self;
            proof {
                assert(listed(cells@, cells@.len() as int, q0)) by {
                    assert(cells@[i as int]@ == q0);
                }
                assert(self.window().contains(q0) && adjacent(p, q0));
                assert(!listed(cells@, i as int, q0)) by {
                    if listed(cells@, i as int, q0) {
                        let j = choose|j: int| 0 <= j < i && (#[trigger] cells@[j])@ == q0;
                        assert(cells@[j] == cells@[i as int]);
                    }
                }
                assert(self.stored_count(q0) == live_neighbors(prev, q0));
                lemma_live_neighbors_bound(cur, q0);
                if value {
                    assert(cur =~= prev.insert(p));
                    lemma_birth(prev, p, q0);
                } else {
                    assert(cur =~= prev.remove(p));
                    lemma_death(prev, p, q0);
                }
            }
            let at = store_index(self.width, self.height, cell.x, cell.y);
            let entry = self.inner[at];
            let neighbor_count: u8 = if value {
                entry.neighbor_count + 1
            } else {
                entry.neighbor_count - 1
            };
            self.inner[at] = CachedCell { alive: entry.alive, neighbor_count: neighbor_count };
            proof {
                assert forall|q: Point|
                    in_grid(self.width as int, self.height as int, q) && q != q0 implies index_of(
                    self.width as int,
                    q,
                ) != index_of(self.width as int, q0) by {
                    if index_of(self.width as int, q) == index_of(self.width as int, q0) {
                        lemma_index_injective(self.width as int, self.height as int, q, q0);
                    }
                }
                assert forall|q: Point| self@.contains(q) == cur.contains(q) by {
                    if in_grid(self.width as int, self.height as int, q) {
                        lemma_index_in_store(self.width as int, self.height as int, q);
                    }
                }
                assert(self@ =~= cur);
                assert forall|q: Point| self.window().contains(q) implies #[trigger] self.stored_count(
                    q,
                ) == (if listed(cells@, i + 1, q) {
                    live_neighbors(cur, q)
                } else {
                    live_neighbors(prev, q)
                }) by {
                    lemma_listed_next(cells@, i as int, q);
                    lemma_index_in_store(self.width as int, self.height as int, q);
                    if q != q0 {
                        assert(self.stored_count(q) == before.stored_count(q));
                    }
                }
            }
        }
        proof {
            assert forall|q: Point| self.window().contains(q) implies #[trigger] self.stored_count(q)
                == live_neighbors(cur, q) by {
                if !listed(cells@, cells@.len() as int, q) {
                    if value {
                        assert(cur =~= prev.insert(p));
                        lemma_birth(prev, p, q);
                    } else {
                        assert(cur =~= prev.remove(p));
                        lemma_death(prev, p, q);
                    }
                }
            }
        }
    }

    /// Makes the cell at `(x, y)` alive or dead. Where it already is what
    /// `value` says, nothing changes.
    pub fn set(&mut self, x: i64, y: i64, value: bool)
        requires
            old(self).wf(),
            old(self).window().contains((x as int, y as int)),
        ensures
            final(self).wf(),
            final(self).width() == old(self).width(),
            final(self).height() == old(self).height(),
            final(self)@ == with_cell(old(self)@, (x as int, y as int), value),
            old(self)@.contains((x as int, y as int)) == value ==> final(self)@ == old(self)@
                && forall|q: Point| #[trigger] final(self).stored_count(q) == old(self).stored_count(q),
    {
        let ghost p: Point = (x as int, y as int);
        let i = store_index(self.width, self.height, x, y);
        let entry = self.inner[i];
        if entry.alive != value {
            self.inner[i] = CachedCell { alive: value, neighbor_count: entry.neighbor_count };
            proof {
                let expected = if value {
                    old(self)@.insert(p)
                } else {
                    old(self)@.remove(p)
                };
                assert forall|q: Point|
                    in_grid(self.width as int, self.height as int, q) && q != p implies index_of(
                    self.width as int,
                    q,
                ) != index_of(self.width as int, p) by {
                    if index_of(self.width as int, q) == index_of(self.width as int, p) {
                        lemma_index_injective(self.width as int, self.height as int, q, p);
                    }
                }
                assert forall|q: Point| self@.contains(q) == expected.contains(q) by {
                    if in_grid(self.width as int, self.height as int, q) {
                        lemma_index_in_store(self.width as int, self.height as int, q);
                    }
                }
                assert(self@ =~= expected);
                assert(flipped(self@, p) =~= old(self)@);
                assert forall|q: Point| self.window().contains(q) implies #[trigger] self.stored_count(
                    q,
                ) == live_neighbors(flipped(self@, p), q) by {
                    lemma_index_in_store(self.width as int, self.height as int, q);
                    assert(self.stored_count(q) == old(self).stored_count(q));
                }
            }
            self.update_neighbors(x, y, value);
        } else {
            proof {
                if value {
                    assert(self@ =~= old(self)@.insert(p));
                } else {
                    assert(self@ =~= old(self)@.remove(p));
                }
            }
        }
    }

    /// Whether the cell at `(x, y)` is alive, for coordinates that may lie
    /// off the board.
    pub fn try_get(&self, x: i64, y: i64) -> (result: Result<bool, BoardError>)
        requires
            self.shaped(),
        ensures
            result == (if self.window().contains((x as int, y as int)) {
                Ok::<bool, BoardError>(self@.contains((x as int, y as int)))
            } else {
                Err::<bool, BoardError>(BoardError::OutOfBounds)
            }),
    {
        if self.check_point(x, y) {
            Ok(self.get(x, y))
        } else {
            Err(BoardError::OutOfBounds)
        }
    }

    /// Makes the cell at `(x, y)` alive or dead, for coordinates that may
    /// lie off the board; off the board nothing changes.
    pub fn try_set(&mut self, x: i64, y: i64, value: bool) -> (result: Result<(), BoardError>)
        requires
            old(self).wf(),
        ensures
            final(self).wf(),
            final(self).width() == old(self).width(),
            final(self).height() == old(self).height(),
            result == (if old(self).window().contains((x as int, y as int)) {
                Ok::<(), BoardError>(())
            } else {
                Err::<(), BoardError>(BoardError::OutOfBounds)
            }),
            final(self)@ == (if result is Ok {
                with_cell(old(self)@, (x as int, y as int), value)
            } else {
                old(self)@
            }),
            result is Err ==> forall|q: Point|
                #[trigger] final(self).stored_count(q) == old(self).stored_count(q),
    {
        if self.check_point(x, y) {
            self.set(x, y, value);
            Ok(())
        } else {
            Err(BoardError::OutOfBounds)
        }
    }

    /// Kills every cell.
    pub fn clear(&mut self)
        requires
            old(self).shaped(),
        ensures
            final(self).wf(),
            final(self).width() == old(self).width(),
            final(self).height() == old(self).height(),
            final(self)@ == Set::<Point>::empty(),
    {
        let n = self.inner.len();
        for i in 0..n
            invariant
                n == self.inner.len(),
                self.shaped(),
                self.width == old(self).width,
                self.height == old(self).height,
                forall|j: int|
                    0 <= j < i ==> !(#[trigger] self.inner@[j]).alive && self.inner@[j].neighbor_count
                        == 0,
        {
            self.inner[i] = CachedCell { alive: false, neighbor_count: 0 };
        }
        proof {
            assert forall|p: Point|
                in_grid(self.width as int, self.height as int, p) implies !self.inner@[index_of(
                self.width as int,
                p,
            )].alive && self.inner@[index_of(self.width as int, p)].neighbor_count == 0 by {
                lemma_index_in_store(self.width as int, self.height as int, p);
            }
            assert(self@ =~= Set::<Point>::empty());
        }
    }

    /// Makes each cell alive or dead as `flips` says, read row by row. Each cell is
    /// written through `set`, so the held counts stay true.
    pub fn fill(&mut self, flips: &Vec<bool>)
        requires
            old(self).wf(),
            flips.len() == old(self).width() * old(self).height(),
        ensures
            final(self).wf(),
            final(self).width() == old(self).width(),
            final(self).height() == old(self).height(),
            final(self)@ == pattern(flips@, old(self).width() as int, old(self).height() as int),
    {
        let width = self.width;
        let height = self.height;
        for row in 0..height
            invariant
                self.wf(),
                width == self.width == old(self).width,
                height == self.height == old(self).height,
                flips.len() == width * height,
                forall|q: Point|
                    in_grid(width as int, height as int, q) && q.1 < row ==> (
                    #[trigger] self@.contains(q) == flips@[index_of(width as int, q)]),
        {
            for col in 0..width
                invariant
                    row < height,
                    self.wf(),
                    width == self.width == old(self).width,
                    height == self.height == old(self).height,
                    flips.len() == width * height,
                    forall|q: Point|
                        in_grid(width as int, height as int, q) && (q.1 < row || (q.1 == row && q.0
                            < col)) ==> (#[trigger] self@.contains(q) == flips@[index_of(
                            width as int,
                            q,
                        )]),
            {
                proof {
                    lemma_coordinates_in_store(
                        width as int,
                        height as int,
                        (col as int, row as int),
                    );
                }
                let x = col as i64;
                let y = row as i64;
                let i = store_index(width, height, x, y);
                self.set(x, y, flips[i]);
            }
        }
        proof {
            assert(self@ =~= pattern(flips@, width as int, height as int));
        }
    }

    /// Gives every cell the outcome of a coin flip of its own.
    ///
    /// Panics if the operating system cannot seed the random generator.
    pub fn randomize(&mut self)
        requires
            old(self).wf(),
        ensures
            final(self).wf(),
            final(self).width() == old(self).width(),
            final(self).height() == old(self).height(),
    {
        let flips = coin_flips(self.width * self.height);
        self.fill(&flips);
    }

    /// A copy of the board as it stands.
    pub fn snapshot(&self) -> (copy: Self)
        ensures
            copy@ == self@,
            copy.width() == self.width(),
            copy.height() == self.height(),
            copy.shaped() == self.shaped(),
            copy.wf() == self.wf(),
            forall|p: Point| #[trigger] copy.stored_count(p) == self.stored_count(p),
    {
        let copy = DenseCachedBoard {
            width: self.width,
            height: self.height,
            inner: self.inner.clone(),
        };
        proof {
            assert(copy.inner@ =~= self.inner@);
            assert(copy@ =~= self@);
            assert forall|p: Point| #[trigger] copy.stored_count(p) == self.stored_count(p) by {}
            if self.wf() {
                assert forall|p: Point| copy.window().contains(p) implies #[trigger] copy.stored_count(
                    p,
                ) == live_neighbors(copy@, p) by {
                    assert(self.stored_count(p) == live_neighbors(self@, p));
                }
            }
            if copy.wf() {
                assert forall|p: Point| self.window().contains(p) implies #[trigger] self.stored_count(
                    p,
                ) == live_neighbors(self@, p) by {
                    assert(copy.stored_count(p) == live_neighbors(copy@, p));
                }
            }
        }
        copy
    }

    /// Advances the board by one generation.
    ///
    /// Every cell is judged by the state and the count that a copy of the
    /// board, taken before any cell changes, holds for it; the outcome is
    /// written through `set`, which prepares the counts of the generation
    /// to come.
    pub fn step(&mut self)
        requires
            old(self).wf(),
        ensures
            final(self).wf(),
            final(self).width() == old(self).width(),
            final(self).height() == old(self).height(),
            final(self)@ == next_generation_within(old(self)@, old(self).window()),
    {
        let snapshot = self.snapshot();
        let width = self.width;
        let height = self.height;
        for row in 0..height
            invariant
                self.wf(),
                snapshot.wf(),
                snapshot@ == old(self)@,
                width == self.width == snapshot.width == old(self).width,
                height == self.height == snapshot.height == old(self).height,
                forall|q: Point|
                    in_grid(width as int, height as int, q) && q.1 < row ==> (
                    #[trigger] self@.contains(q) == next_generation(snapshot@).contains(q)),
        {
            for col in 0..width
                invariant
                    row < height,
                    self.wf(),
                    snapshot.wf(),
                    snapshot@ == old(self)@,
                    width == self.width == snapshot.width == old(self).width,
                    height == self.height == snapshot.height == old(self).height,
                    forall|q: Point|
                        in_grid(width as int, height as int, q) && (q.1 < row || (q.1 == row && q.0
                            < col)) ==> (#[trigger] self@.contains(q) == next_generation(
                            snapshot@,
                        ).contains(q)),
            {
                proof {
                    lemma_coordinates_in_store(
                        width as int,
                        height as int,
                        (col as int, row as int),
                    );
                }
                let x = col as i64;
                let y = row as i64;
                let alive = snapshot.get(x, y);
                let neighbor_count = snapshot.get_neighbor_count(x, y);
                self.set(x, y, next_state(alive, neighbor_count));
            }
        }
        proof {
            assert(self@ =~= next_generation_within(old(self)@, old(self).window()));
        }
    }

    /// The live cells, each once, row by row.
    pub fn iter_live_cells(&self) -> (cells: Vec<Cell>)
        requires
            self.shaped(),
        ensures
            cells@.no_duplicates(),
            in_reading_order(cells@),
            forall|p: Point| self@.contains(p) <==> #[trigger] listed(cells@, cells@.len() as int, p),
    {
        let mut cells: Vec<Cell> = Vec::new();
        let width = self.width;
        let height = self.height;
        for row in 0..height
            invariant
                self.shaped(),
                width == self.width,
                height == self.height,
                forall|i: int| 0 <= i < cells.len() ==> (#[trigger] cells[i]).y < row,
                forall|i: int, j: int|
                    0 <= i < j < cells.len() ==> (#[trigger] cells[i]).y < (#[trigger] cells[j]).y
                        || (cells[i].y == cells[j].y && cells[i].x < cells[j].x),
                forall|p: Point|
                    (self@.contains(p) && p.1 < row) <==> #[trigger] listed(
                        cells@,
                        cells@.len() as int,
                        p,
                    ),
        {
            for col in 0..width
                invariant
                    row < height,
                    self.shaped(),
                    width == self.width,
                    height == self.height,
                    forall|i: int|
                        0 <= i < cells.len() ==> (#[trigger] cells[i]).y < row || (cells[i].y == row
                            && cells[i].x < col),
                    forall|i: int, j: int|
                        0 <= i < j < cells.len() ==> (#[trigger] cells[i]).y < (
                        #[trigger] cells[j]).y || (cells[i].y == cells[j].y && cells[i].x
                            < cells[j].x),
                    forall|p: Point|
                        (self@.contains(p) && (p.1 < row || (p.1 == row && p.0 < col)))
                            <==> #[trigger] listed(cells@, cells@.len() as int, p),
            {
                proof {
                    lemma_coordinates_in_store(
                        width as int,
                        height as int,
                        (col as int, row as int),
                    );
                }
                let x = col as i64;
                let y = row as i64;
                let ghost before = cells@;
                let ghost here: Point = (col as int, row as int);
                if self.get(x, y) {
                    cells.push(Cell { x: x, y: y });
                    proof {
                        assert(cells@[before.len() as int]@ == here);
                        assert forall|p: Point|
                            (self@.contains(p) && (p.1 < row || (p.1 == row && p.0 < col + 1)))
                                <==> #[trigger] listed(cells@, cells@.len() as int, p) by {
                            lemma_listed_next(cells@, before.len() as int, p);
                            lemma_listed_prefix(cells@, before, before.len() as int, p);
                        }
                    }
                } else {
                    proof {
                        assert forall|p: Point|
                            (self@.contains(p) && (p.1 < row || (p.1 == row && p.0 < col + 1)))
                                <==> #[trigger] listed(cells@, cells@.len() as int, p) by {
                            assert(listed(before, before.len() as int, p) ==> p != here);
                        }
                    }
                }
            }
        }
        cells
    }
}

} // verus!
