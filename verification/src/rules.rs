//! The automaton itself, as mathematics: points, neighbourhoods, the
//! birth and survival rule, and the generation step on a set of live points.
use vstd::prelude::*;

verus! {

/// A point of the integer plane, as `(x, y)`.
pub type Point = (int, int);

/// `q` is one of the eight points that touch `p` by a side or a corner.
pub open spec fn adjacent(p: Point, q: Point) -> bool {
    &&& p != q
    &&& -1 <= q.0 - p.0 <= 1
    &&& -1 <= q.1 - p.1 <= 1
}

/// The Moore neighbourhood of `p`: its eight adjacent points.
pub open spec fn neighbors8(p: Point) -> Set<Point> {
    Set::new(|q: Point| adjacent(p, q))
}

/// One if `p` is alive, zero if not.
pub open spec fn indicator(alive: Set<Point>, p: Point) -> nat {
    if alive.contains(p) {
        1
    } else {
        0
    }
}

/// The number of live points among the eight neighbours of `p`.
pub open spec fn live_neighbors(alive: Set<Point>, p: Point) -> nat {
    indicator(alive, (p.0 - 1, p.1 - 1)) + indicator(alive, (p.0, p.1 - 1)) + indicator(
        alive,
        (p.0 + 1, p.1 - 1),
    ) + indicator(alive, (p.0 - 1, p.1)) + indicator(alive, (p.0 + 1, p.1)) + indicator(
        alive,
        (p.0 - 1, p.1 + 1),
    ) + indicator(alive, (p.0, p.1 + 1)) + indicator(alive, (p.0 + 1, p.1 + 1))
}

/// The place of `q` in the three-by-three block around `p`, row by row:
/// from 0 to 8 for the points of the block, 4 for `p` itself.
pub open spec fn rank(p: Point, q: Point) -> int {
    (q.1 - p.1 + 1) * 3 + (q.0 - p.0 + 1)
}

/// The number of live points among the neighbours of `p` whose place in the
/// block around `p` is below `r`.
pub open spec fn live_neighbors_before(alive: Set<Point>, p: Point, r: int) -> nat {
    (if r > 0 {
        indicator(alive, (p.0 - 1, p.1 - 1))
    } else {
        0
    }) + (if r > 1 {
        indicator(alive, (p.0, p.1 - 1))
    } else {
        0
    }) + (if r > 2 {
        indicator(alive, (p.0 + 1, p.1 - 1))
    } else {
        0
    }) + (if r > 3 {
        indicator(alive, (p.0 - 1, p.1))
    } else {
        0
    }) + (if r > 5 {
        indicator(alive, (p.0 + 1, p.1))
    } else {
        0
    }) + (if r > 6 {
        indicator(alive, (p.0 - 1, p.1 + 1))
    } else {
        0
    }) + (if r > 7 {
        indicator(alive, (p.0, p.1 + 1))
    } else {
        0
    }) + (if r > 8 {
        indicator(alive, (p.0 + 1, p.1 + 1))
    } else {
        0
    })
}

/// The rule B3/S23: a live cell stays alive with two or three live
/// neighbours, a dead cell comes alive with exactly three.
pub open spec fn lives_on(alive: bool, count: nat) -> bool {
    if alive {
        count == 2 || count == 3
    } else {
        count == 3
    }
}

/// The next generation on the unbounded plane: every point is judged
/// against the same, present generation.
pub open spec fn next_generation(alive: Set<Point>) -> Set<Point> {
    Set::new(|p: Point| lives_on(alive.contains(p), live_neighbors(alive, p)))
}

/// The next generation as a board with hard edges sees it: points outside
/// `window` never come alive.
pub open spec fn next_generation_within(alive: Set<Point>, window: Set<Point>) -> Set<Point> {
    next_generation(alive).intersect(window)
}

/// The state of the board after `n` generations inside `window`.
pub open spec fn evolve_within(alive: Set<Point>, window: Set<Point>, n: nat) -> Set<Point>
    decreases n,
{
    if n == 0 {
        alive
    } else {
        next_generation_within(evolve_within(alive, window, (n - 1) as nat), window)
    }
}

/// The live-neighbour counts that a board keeps for the points of `window`:
/// one entry for each point with at least one live neighbour, and none for
/// the others.
pub open spec fn nonzero_counts(alive: Set<Point>, window: Set<Point>) -> Map<Point, nat> {
    Map::new(
        |p: Point| window.contains(p) && live_neighbors(alive, p) > 0,
        |p: Point| live_neighbors(alive, p),
    )
}

/// Decides the fate of one cell from its state and its live-neighbour count.
pub fn next_state(alive: bool, neighbor_count: u8) -> (r: bool)
    ensures
        r == lives_on(alive, neighbor_count as nat),
{
    if alive {
        neighbor_count == 2 || neighbor_count == 3
    } else {
        neighbor_count == 3
    }
}

/// `alive` after the cell at `p` has been made alive or dead.
pub open spec fn with_cell(alive: Set<Point>, p: Point, value: bool) -> Set<Point> {
    if value {
        alive.insert(p)
    } else {
        alive.remove(p)
    }
}

/// `alive` with the state of `p` reversed.
pub open spec fn flipped(alive: Set<Point>, p: Point) -> Set<Point> {
    if alive.contains(p) {
        alive.remove(p)
    } else {
        alive.insert(p)
    }
}

/// A birth at `p` adds one to the count of each neighbour of `p`, and
/// leaves every other count as it was.
pub proof fn lemma_birth(alive: Set<Point>, p: Point, q: Point)
    requires
        !alive.contains(p),
    ensures
        live_neighbors(alive.insert(p), q) == live_neighbors(alive, q) + (if adjacent(p, q) {
            1nat
        } else {
            0nat
        }),
{
}

/// A death at `p` takes one from the count of each neighbour of `p`, and
/// leaves every other count as it was.
pub proof fn lemma_death(alive: Set<Point>, p: Point, q: Point)
    requires
        alive.contains(p),
    ensures
        live_neighbors(alive.remove(p), q) + (if adjacent(p, q) {
            1nat
        } else {
            0nat
        }) == live_neighbors(alive, q),
{
}

/// No point has more than eight live neighbours.
pub proof fn lemma_live_neighbors_bound(alive: Set<Point>, p: Point)
    ensures
        live_neighbors(alive, p) <= 8,
{
}

proof fn lemma_count_one(s: Set<Point>, alive: Set<Point>, q: Point) -> (t: Set<Point>)
    requires
        s.finite(),
        !s.contains(q),
    ensures
        t.finite(),
        t.len() == s.len() + indicator(alive, q),
        t == (if alive.contains(q) {
            s.insert(q)
        } else {
            s
        }),
{
    if alive.contains(q) {
        s.insert(q)
    } else {
        s
    }
}

/// A live-neighbour count is the size of the live part of the neighbourhood,
/// which has eight points.
pub proof fn lemma_live_neighbors_is_cardinality(alive: Set<Point>, p: Point)
    ensures
        neighbors8(p).finite(),
        neighbors8(p).len() == 8,
        neighbors8(p).intersect(alive).finite(),
        live_neighbors(alive, p) == neighbors8(p).intersect(alive).len(),
        live_neighbors(alive, p) <= 8,
{
    let q0: Point = (p.0 - 1, p.1 - 1);
    let q1: Point = (p.0, p.1 - 1);
    let q2: Point = (p.0 + 1, p.1 - 1);
    let q3: Point = (p.0 - 1, p.1);
    let q4: Point = (p.0 + 1, p.1);
    let q5: Point = (p.0 - 1, p.1 + 1);
    let q6: Point = (p.0, p.1 + 1);
    let q7: Point = (p.0 + 1, p.1 + 1);
    let e = Set::<Point>::empty();
    let full = Set::<Point>::full();
    let a0 = lemma_count_one(e, full, q0);
    let a1 = lemma_count_one(a0, full, q1);
    let a2 = lemma_count_one(a1, full, q2);
    let a3 = lemma_count_one(a2, full, q3);
    let a4 = lemma_count_one(a3, full, q4);
    let a5 = lemma_count_one(a4, full, q5);
    let a6 = lemma_count_one(a5, full, q6);
    let a7 = lemma_count_one(a6, full, q7);
    assert(neighbors8(p) =~= a7);
    let s0 = lemma_count_one(e, alive, q0);
    let s1 = lemma_count_one(s0, alive, q1);
    let s2 = lemma_count_one(s1, alive, q2);
    let s3 = lemma_count_one(s2, alive, q3);
    let s4 = lemma_count_one(s3, alive, q4);
    let s5 = lemma_count_one(s4, alive, q5);
    let s6 = lemma_count_one(s5, alive, q6);
    let s7 = lemma_count_one(s6, alive, q7);
    assert(neighbors8(p).intersect(alive) =~= s7);
}

} // verus!
