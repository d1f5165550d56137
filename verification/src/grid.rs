//! The sparse board: the live cells as a set, and beside it the live-neighbour
//! count of every cell that has a live neighbour, kept up to date on each
//! change of a cell.
use vstd::prelude::*;
use std::collections::{HashMap, HashSet};
use vstd::std_specs::iter::IteratorSpec;
use crate::cell::{Cell, cell_key, key_cell, in_plane, plane, key_of, point_of, lemma_key_round_trip, lemma_point_round_trip, listed, lemma_listed_next, neighbors_within, in_block_order};
use crate::rules::{Point, with_cell, adjacent, flipped, live_neighbors, lives_on, next_generation_within, nonzero_counts, next_state, neighbors8, lemma_live_neighbors_is_cardinality, lemma_birth, lemma_death, lemma_live_neighbors_bound};

verus! {

broadcast use vstd::std_specs::hash::group_hash_axioms;

/// A board without edges short of the range of the coordinates.
///
/// Only live cells and their surroundings take up memory. The plane reaches
/// as far as a `Cell` can name: a cell on the rim of the range of `i64` has
/// fewer than eight neighbours, and nothing is born beyond the rim.
pub struct LifeBoard {
    alive: HashSet<u128>,
    neighbors: HashMap<u128, u8>,
}

impl View for LifeBoard {
    type V = Set<Point>;

    /// The live points.
    closed spec fn view(&self) -> Set<Point> {
        Set::new(|p: Point| in_plane(p) && self.alive@.contains(key_of(p) as u128))
    }
}

impl LifeBoard {
    /// The stored live-neighbour counts, by point.
    pub closed spec fn counts(&self) -> Map<Point, nat> {
        Map::new(
            |p: Point| in_plane(p) && self.neighbors@.contains_key(key_of(p) as u128),
            |p: Point| self.neighbors@[key_of(p) as u128] as nat,
        )
    }

    /// The board is consistent: every stored count is the number of live
    /// neighbours of its point, and a point has an entry exactly if that
    /// number is not zero.
    pub open spec fn wf(&self) -> bool {
        &&& self@.subset_of(plane())
        &&& self.counts() == nonzero_counts(self@, plane())
    }

    /// The count stored for `q`; zero where none is stored.
    closed spec fn count_at(&self, q: Point) -> nat {
        let k = key_of(q) as u128;
        if self.neighbors@.contains_key(k) {
            self.neighbors@[k] as nat
        } else {
            0
        }
    }

    /// No stored count is zero.
    closed spec fn sparse(&self) -> bool {
        forall|k: u128| self.neighbors@.contains_key(k) ==> #[trigger] self.neighbors@[k] != 0
    }

    proof fn lemma_counts_from_entries(&self, alive: Set<Point>)
        requires
            self.sparse(),
            forall|q: Point| in_plane(q) ==> #[trigger] self.count_at(q) == live_neighbors(alive, q),
        ensures
            self.counts() == nonzero_counts(alive, plane()),
    {
        assert forall|q: Point|
            self.counts().contains_key(q) == #[trigger] nonzero_counts(
                alive,
                plane(),
            ).contains_key(q) by {
            if in_plane(q) {
                assert(self.count_at(q) == live_neighbors(alive, q));
            }
        }
        assert forall|q: Point| #[trigger] self.counts().contains_key(q) implies self.counts()[q]
            == nonzero_counts(alive, plane())[q] by {
            assert(self.count_at(q) == live_neighbors(alive, q));
        }
        assert(self.counts() =~= nonzero_counts(alive, plane()));
    }

    proof fn lemma_entries_from_counts(&self, alive: Set<Point>)
        requires
            self.counts() == nonzero_counts(alive, plane()),
        ensures
            self.sparse(),
            forall|q: Point| in_plane(q) ==> #[trigger] self.count_at(q) == live_neighbors(alive, q),
    {
        assert forall|k: u128| self.neighbors@.contains_key(k) implies #[trigger] self.neighbors@[k]
            != 0 by {
            lemma_point_round_trip(k as int);
            let q = point_of(k as int);
            assert(key_of(q) as u128 == k);
            assert(self.counts().contains_key(q));
            assert(nonzero_counts(alive, plane()).contains_key(q));
            assert(self.counts()[q] == self.neighbors@[k] as nat);
            assert(nonzero_counts(alive, plane())[q] == live_neighbors(alive, q));
        }
        assert forall|q: Point| in_plane(q) implies #[trigger] self.count_at(q) == live_neighbors(
            alive,
            q,
        ) by {
            assert(plane().contains(q));
            assert(self.counts().contains_key(q) == nonzero_counts(alive, plane()).contains_key(q));
            if self.counts().contains_key(q) {
                assert(self.counts()[q] == nonzero_counts(alive, plane())[q]);
                assert(nonzero_counts(alive, plane())[q] == live_neighbors(alive, q));
            }
        }
    }

    /// The points of this board: all that a `Cell` can name.
    pub open spec fn window(&self) -> Set<Point> {
        plane()
    }

    /// Only points of the plane are alive.
    pub proof fn lemma_alive_in_window(&self)
        ensures
            self@.subset_of(self.window()),
    {
    }

    /// On a consistent board the count read for a cell, zero where no entry
    /// is stored, is the number of live points among its eight neighbours.
    pub proof fn lemma_counts_are_census(&self, p: Point)
        requires
            self.wf(),
            in_plane(p),
        ensures
            (if self.counts().contains_key(p) {
                self.counts()[p]
            } else {
                0
            }) == neighbors8(p).intersect(self@).len(),
    {
        lemma_live_neighbors_is_cardinality(self@, p);
        assert(plane().contains(p));
    }

    /// A consistent board stores no count of zero, and no count for a point
    /// without live neighbours.
    pub proof fn lemma_no_zero_entry(&self, p: Point)
        requires
            self.wf(),
            self.counts().contains_key(p),
        ensures
            self.counts()[p] > 0,
            in_plane(p),
            live_neighbors(self@, p) == self.counts()[p],
    {
    }

    /// An empty board.
    pub fn new() -> (board: Self)
        ensures
            board.wf(),
            board@ == Set::<Point>::empty(),
    {
        let board = LifeBoard { alive: HashSet::new(), neighbors: HashMap::new() };
        assert(board@ =~= Set::<Point>::empty());
        assert(board.counts() =~= nonzero_counts(board@, plane()));
        board
    }

    /// The neighbours of `(x, y)` that the coordinates can name, row by row:
    /// all eight, but for a cell on the rim of the coordinate range.
    pub fn get_neighbors(&self, x: i64, y: i64) -> (cells: Vec<Cell>)
        ensures
            cells@.no_duplicates(),
            cells.len() <= 8,
            i64::MIN < x < i64::MAX && i64::MIN < y < i64::MAX ==> cells.len() == 8,
            in_block_order(cells@, (x as int, y as int)),
            forall|q: Point|
                (in_plane(q) && adjacent((x as int, y as int), q)) <==> #[trigger] listed(
                    cells@,
                    cells@.len() as int,
                    q,
                ),
    {
        neighbors_within(x, y, i64::MIN, i64::MAX, i64::MIN, i64::MAX)
    }

    /// Brings the stored counts up to date after the cell at `(x, y)` has
    /// become `value`: each neighbour gains or loses one, and a count that
    /// falls to zero leaves the map.
    fn update_neighbors(&mut self, x: i64, y: i64, value: bool)
        requires
            old(self)@.subset_of(plane()),
            old(self)@.contains((x as int, y as int)) == value,
            old(self).counts() == nonzero_counts(flipped(old(self)@, (x as int, y as int)), plane()),
        ensures
            final(self)@ == old(self)@,
            final(self).wf(),
    {
        let ghost p: Point = (x as int, y as int);
        let ghost cur = self@;
        let ghost prev = flipped(cur, p);
        let ghost alive_keys = self.alive@;
        let cells = self.get_neighbors(x, y);
        proof {
            self.lemma_entries_from_counts(prev);
        }
        for i in 0..cells.len()
            invariant
                p == (x as int, y as int),
                prev == flipped(cur, p),
                cur.contains(p) == value,
                self.alive@ == alive_keys,
                self@ == cur,
                cells@.no_duplicates(),
                forall|q: Point|
                    (in_plane(q) && adjacent(p, q)) <==> #[trigger] listed(
                        cells@,
                        cells@.len() as int,
                        q,
                    ),
                self.sparse(),
                forall|q: Point|
                    in_plane(q) ==> #[trigger] self.count_at(q) == (if listed(cells@, i as int, q) {
                        live_neighbors(cur, q)
                    } else {
                        live_neighbors(prev, q)
                    }),
        {
            let cell = cells[i];
            let key = cell_key(cell.x, cell.y);
            let ghost q0 = cell@;
            let ghost before = *self;
            proof {
                lemma_key_round_trip(q0);
                assert(listed(cells@, cells@.len() as int, q0)) by {
                    assert(cells@[i as int]@ == q0);
                }
                assert(adjacent(p, q0));
                assert(!listed(cells@, i as int, q0)) by {
                    if listed(cells@, i as int, q0) {
                        let j = choose|j: int| 0 <= j < i && (#[trigger] cells@[j])@ == q0;
                        assert(cells@[j] == cells@[i as int]);
                    }
                }
                assert(self.count_at(q0) == live_neighbors(prev, q0));
                lemma_live_neighbors_bound(cur, q0);
                if value {
                    assert(cur =~= prev.insert(p));
                    lemma_birth(prev, p, q0);
                } else {
                    assert(cur =~= prev.remove(p));
                    lemma_death(prev, p, q0);
                }
            }
            let neighbor_count: u8 = match self.neighbors.get(&key) {
                Some(count) => *count,
                None => 0,
            };
            let new_neighbor_count: u8 = if value {
                neighbor_count + 1
            } else {
                neighbor_count - 1
            };
            if new_neighbor_count != 0 {
                self.neighbors.insert(key, new_neighbor_count);
            } else {
                self.neighbors.remove(&key);
            }
            proof {
                assert(self@ =~= cur);
                assert(self.count_at(q0) == live_neighbors(cur, q0));
                lemma_listed_next(cells@, i as int, q0);
                assert forall|q: Point| in_plane(q) implies #[trigger] self.count_at(q) == (if listed(
                    cells@,
                    i + 1,
                    q,
                ) {
                    live_neighbors(cur, q)
                } else {
                    live_neighbors(prev, q)
                }) by {
                    if q != q0 {
                        lemma_key_round_trip(q);
                        assert(key_of(q) != key_of(q0));
                        assert(self.count_at(q) == before.count_at(q));
                        lemma_listed_next(cells@, i as int, q);
                    }
                }
            }
        }
        proof {
            assert forall|q: Point| in_plane(q) implies #[trigger] self.count_at(q) == live_neighbors(
                cur,
                q,
            ) by {
                if !listed(cells@, cells@.len() as int, q) {
                    if value {
                        assert(cur =~= prev.insert(p));
                        lemma_birth(prev, p, q);
                    } else {
                        assert(cur =~= prev.remove(p));
                        lemma_death(prev, p, q);
                    }
                }
            }
            self.lemma_counts_from_entries(cur);
        }
    }

    /// Whether the cell at `(x, y)` is alive.
    pub fn get(&self, x: i64, y: i64) -> (alive: bool)
        ensures
            alive == self@.contains((x as int, y as int)),
    {
        let key = cell_key(x, y);
        self.alive.contains(&key)
    }

    /// The number of live neighbours of the cell at `(x, y)`.
    pub fn get_neighbor_count(&self, x: i64, y: i64) -> (count: u8)
        requires
            self.wf(),
        ensures
            count == live_neighbors(self@, (x as int, y as int)),
    {
        let key = cell_key(x, y);
        proof {
            let p: Point = (x as int, y as int);
            assert(self.counts().contains_key(p) == nonzero_counts(self@, plane()).contains_key(p));
            assert(self.counts().contains_key(p) ==> self.counts()[p] == live_neighbors(self@, p));
        }
        match self.neighbors.get(&key) {
            Some(count) => *count,
            None => 0,
        }
    }

    /// Makes the cell at `(x, y)` alive or dead. Where it already is what
    /// `value` says, nothing changes.
    pub fn set(&mut self, x: i64, y: i64, value: bool)
        requires
            old(self).wf(),
        ensures
            final(self).wf(),
            final(self)@ == with_cell(old(self)@, (x as int, y as int), value),
            old(self)@.contains((x as int, y as int)) == value ==> final(self)@ == old(self)@
                && final(self).counts() == old(self).counts(),
    {
        let ghost p: Point = (x as int, y as int);
        let key = cell_key(x, y);
        proof {
            lemma_key_round_trip(p);
            assert forall|q: Point| in_plane(q) && q != p implies key_of(q) != key_of(p) by {
                lemma_key_round_trip(q);
            }
        }
        if value {
            if self.alive.insert(key) {
                assert(self@ =~= old(self)@.insert(p));
                assert(flipped(self@, p) =~= old(self)@);
                self.update_neighbors(x, y, value);
            } else {
                assert(self@ =~= old(self)@);
                assert(self@ =~= old(self)@.insert(p));
            }
        } else {
            if self.alive.remove(&key) {
                assert(self@ =~= old(self)@.remove(p));
                assert(flipped(self@, p) =~= old(self)@);
                self.update_neighbors(x, y, value);
            } else {
                assert(self@ =~= old(self)@);
                assert(self@ =~= old(self)@.remove(p));
            }
        }
    }

    /// Kills every cell.
    pub fn clear(&mut self)
        ensures
            final(self).wf(),
            final(self)@ == Set::<Point>::empty(),
    {
        self.alive.clear();
        self.neighbors.clear();
        assert(self@ =~= Set::<Point>::empty());
        assert(self.counts() =~= nonzero_counts(self@, plane()));
    }

    /// Advances the board by one generation.
    ///
    /// Deaths and births are both decided on the board as it stands before
    /// any cell changes, and only then carried out.
    pub fn step(&mut self)
        requires
            old(self).wf(),
        ensures
            final(self).wf(),
            final(self)@ == next_generation_within(old(self)@, plane()),
    {
        let ghost before = self@;
        let mut killed: Vec<Cell> = Vec::new();
        let mut spawned: Vec<Cell> = Vec::new();

        let ghost alive_keys = self.alive.iter().remaining().unref();
        for key in it: self.alive.iter()
            invariant
                self.wf(),
                self@ == before,
                alive_keys.to_set() == self.alive@,
                it.seq().unref() == alive_keys,
                forall|i: int|
                    0 <= i < killed.len() ==> before.contains((#[trigger] killed[i])@) && !lives_on(
                        true,
                        live_neighbors(before, killed[i]@),
                    ),
                forall|j: int|
                    0 <= j < it.index() && !lives_on(
                        true,
                        live_neighbors(before, point_of(#[trigger] alive_keys[j] as int)),
                    ) ==> listed(killed@, killed@.len() as int, point_of(alive_keys[j] as int)),
        {
            let cell = key_cell(*key);
            proof {
                lemma_point_round_trip(*key as int);
                assert(alive_keys.to_set().contains(alive_keys[it.index()]));
                assert(before.contains(cell@));
            }
            let neighbor_count = self.get_neighbor_count(cell.x, cell.y);
            let ghost killed_before = killed@;
            if !next_state(true, neighbor_count) {
                killed.push(cell);
                assert(killed@[killed.len() - 1]@ == cell@);
            }
            proof {
                assert forall|q: Point| listed(killed_before, killed_before.len() as int, q) implies listed(
                    killed@,
                    killed@.len() as int,
                    q,
                ) by {
                    let i = choose|i: int|
                        0 <= i < killed_before.len() && (#[trigger] killed_before[i])@ == q;
                    assert(killed@[i]@ == q);
                }
            }
        }
        proof {
            assert forall|q: Point|
                before.contains(q) && !lives_on(true, live_neighbors(before, q)) implies listed(
                killed@,
                killed@.len() as int,
                q,
            ) by {
                lemma_key_round_trip(q);
                let k = key_of(q) as u128;
                assert(alive_keys.to_set().contains(k));
                let j = choose|j: int| 0 <= j < alive_keys.len() && alive_keys[j] == k;
                assert(point_of(alive_keys[j] as int) == q);
            }
        }

        let ghost entries = self.neighbors.iter().remaining();
        for entry in it: self.neighbors.iter()
            invariant
                self.wf(),
                self@ == before,
                it.seq() == entries,
                forall|j: int|
                    0 <= j < entries.len() ==> self.neighbors@.contains_key(*(#[trigger] entries[j]).0)
                        && self.neighbors@[*entries[j].0] == *entries[j].1,
                forall|k: u128|
                    self.neighbors@.contains_key(k) ==> exists|j: int|
                        0 <= j < entries.len() && *(#[trigger] entries[j]).0 == k,
                forall|i: int|
                    0 <= i < spawned.len() ==> !before.contains((#[trigger] spawned[i])@) && lives_on(
                        false,
                        live_neighbors(before, spawned[i]@),
                    ),
                forall|j: int|
                    0 <= j < it.index() && !before.contains(point_of(*(#[trigger] entries[j]).0 as int))
                        && lives_on(
                        false,
                        live_neighbors(before, point_of(*entries[j].0 as int)),
                    ) ==> listed(spawned@, spawned@.len() as int, point_of(*entries[j].0 as int)),
        {
            let key = *entry.0;
            let neighbor_count = *entry.1;
            let cell = key_cell(key);
            let ghost spawned_before = spawned@;
            proof {
                lemma_point_round_trip(key as int);
                self.lemma_entries_from_counts(before);
                assert(self.count_at(cell@) == live_neighbors(before, cell@));
                assert(before.contains(cell@) == self.alive@.contains(key));
            }
            if next_state(false, neighbor_count) && !self.alive.contains(&key) {
                spawned.push(cell);
                assert(spawned@[spawned.len() - 1]@ == cell@);
            }
            proof {
                assert forall|q: Point|
                    listed(spawned_before, spawned_before.len() as int, q) implies listed(
                    spawned@,
                    spawned@.len() as int,
                    q,
                ) by {
                    let i = choose|i: int|
                        0 <= i < spawned_before.len() && (#[trigger] spawned_before[i])@ == q;
                    assert(spawned@[i]@ == q);
                }
            }
        }
        proof {
            assert forall|q: Point|
                in_plane(q) && !before.contains(q) && lives_on(
                    false,
                    live_neighbors(before, q),
                ) implies listed(spawned@, spawned@.len() as int, q) by {
                lemma_key_round_trip(q);
                let k = key_of(q) as u128;
                self.lemma_entries_from_counts(before);
                assert(self.count_at(q) == live_neighbors(before, q));
                assert(self.neighbors@.contains_key(k));
                let j = choose|j: int| 0 <= j < entries.len() && *(#[trigger] entries[j]).0 == k;
                assert(point_of(*entries[j].0 as int) == q);
            }
        }

        for i in 0..killed.len()
            invariant
                self.wf(),
                forall|q: Point|
                    #[trigger] self@.contains(q) <==> before.contains(q) && !listed(
                        killed@,
                        i as int,
                        q,
                    ),
        {
            let cell = killed[i];
            let ghost earlier = self@;
            self.set(cell.x, cell.y, false);
            proof {
                assert forall|q: Point|
                    #[trigger] self@.contains(q) <==> before.contains(q) && !listed(
                        killed@,
                        i + 1,
                        q,
                    ) by {
                    lemma_listed_next(killed@, i as int, q);
                    assert(earlier.contains(q) <==> before.contains(q) && !listed(
                        killed@,
                        i as int,
                        q,
                    ));
                }
            }
        }
        let ghost survivors = self@;
        for i in 0..spawned.len()
            invariant
                self.wf(),
                forall|q: Point|
                    #[trigger] self@.contains(q) <==> survivors.contains(q) || listed(
                        spawned@,
                        i as int,
                        q,
                    ),
        {
            let cell = spawned[i];
            let ghost earlier = self@;
            self.set(cell.x, cell.y, true);
            proof {
                assert forall|q: Point|
                    #[trigger] self@.contains(q) <==> survivors.contains(q) || listed(
                        spawned@,
                        i + 1,
                        q,
                    ) by {
                    lemma_listed_next(spawned@, i as int, q);
                    assert(earlier.contains(q) <==> survivors.contains(q) || listed(
                        spawned@,
                        i as int,
                        q,
                    ));
                }
            }
        }
        proof {
            assert forall|q: Point|
                self@.contains(q) == next_generation_within(before, plane()).contains(q) by {
                if listed(spawned@, spawned@.len() as int, q) {
                    let i = choose|i: int| 0 <= i < spawned.len() && (#[trigger] spawned@[i])@ == q;
                }
                if listed(killed@, killed@.len() as int, q) {
                    let i = choose|i: int| 0 <= i < killed.len() && (#[trigger] killed@[i])@ == q;
                }
                if before.contains(q) {
                    assert(plane().contains(q));
                }
            }
            assert(self@ =~= next_generation_within(before, plane()));
        }
    }

    /// The stored live-neighbour counts, each with its cell, in no
    /// particular order.
    pub fn iter_neighbor_counts(&self) -> (entries: Vec<(Cell, u8)>)
        ensures
            forall|i: int|
                0 <= i < entries.len() ==> self.counts().contains_key((#[trigger] entries[i]).0@)
                    && self.counts()[entries[i].0@] == entries[i].1,
            forall|i: int, j: int|
                0 <= i < j < entries.len() ==> (#[trigger] entries[i]).0 != (#[trigger] entries[j]).0,
            forall|p: Point|
                self.counts().contains_key(p) ==> exists|i: int|
                    0 <= i < entries.len() && (#[trigger] entries[i]).0@ == p,
    {
        let mut entries: Vec<(Cell, u8)> = Vec::new();
        let ghost stored = self.neighbors.iter().remaining();
        for entry in it: self.neighbors.iter()
            invariant
                it.seq() == stored,
                stored.no_duplicates(),
                forall|j: int|
                    0 <= j < stored.len() ==> self.neighbors@.contains_key(*(#[trigger] stored[j]).0)
                        && self.neighbors@[*stored[j].0] == *stored[j].1,
                forall|k: u128|
                    self.neighbors@.contains_key(k) ==> exists|j: int|
                        0 <= j < stored.len() && *(#[trigger] stored[j]).0 == k,
                entries.len() == it.index(),
                forall|i: int|
                    0 <= i < entries.len() ==> key_of((#[trigger] entries[i]).0@) == *stored[i].0
                        && entries[i].1 == *stored[i].1,
        {
            entries.push((key_cell(*entry.0), *entry.1));
        }
        proof {
            assert forall|i: int| 0 <= i < entries.len() implies self.counts().contains_key(
                (#[trigger] entries[i]).0@,
            ) && self.counts()[entries[i].0@] == entries[i].1 by {
                assert(self.neighbors@.contains_key(*stored[i].0));
            }
            assert forall|i: int, j: int| 0 <= i < j < entries.len() implies (#[trigger] entries[i]).0
                != (#[trigger] entries[j]).0 by {
                if entries[i].0 == entries[j].0 {
                    assert(*stored[i].0 == *stored[j].0);
                    assert(*stored[i].1 == *stored[j].1);
                    assert(stored[i] == stored[j]);
                }
            }
            assert forall|p: Point| self.counts().contains_key(p) implies exists|i: int|
                0 <= i < entries.len() && (#[trigger] entries[i]).0@ == p by {
                lemma_key_round_trip(p);
                let k = key_of(p) as u128;
                let j = choose|j: int| 0 <= j < stored.len() && *(#[trigger] stored[j]).0 == k;
                assert(entries[j].0@ == p);
            }
        }
        entries
    }

    /// The live cells, each once, in no particular order.
    pub fn iter_live_cells(&self) -> (cells: Vec<Cell>)
        ensures
            cells@.no_duplicates(),
            forall|p: Point| self@.contains(p) <==> #[trigger] listed(cells@, cells@.len() as int, p),
    {
        let mut cells: Vec<Cell> = Vec::new();
        let ghost keys = self.alive.iter().remaining().unref();
        for key in it: self.alive.iter()
            invariant
                keys.no_duplicates(),
                keys.to_set() == self.alive@,
                it.seq().unref() == keys,
                cells.len() == it.index(),
                forall|i: int| 0 <= i < cells.len() ==> key_of((#[trigger] cells[i])@) == keys[i],
        {
            cells.push(key_cell(*key));
        }
        proof {
            assert forall|p: Point| self@.contains(p) implies listed(
                cells@,
                cells@.len() as int,
                p,
            ) by {
                lemma_key_round_trip(p);
                let k = key_of(p) as u128;
                assert(keys.to_set().contains(k));
                let i = choose|i: int| 0 <= i < keys.len() && keys[i] == k;
                assert(cells@[i]@ == p);
            }
            assert forall|p: Point| listed(cells@, cells@.len() as int, p) implies self@.contains(
                p,
            ) by {
                let i = choose|i: int| 0 <= i < cells@.len() && (#[trigger] cells@[i])@ == p;
                assert(keys.to_set().contains(keys[i]));
            }
        }
        cells
    }
}

} // verus!
