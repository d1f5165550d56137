//! What holds of the boards taken together: that a repeated `set` changes
//! nothing, that a change undone leaves no trace, and that the three boards
//! play the same game.
use vstd::prelude::*;
use crate::board::Board;
use crate::cached::DenseCachedBoard;
use crate::cell::plane;
use crate::dense::DenseRescanBoard;
use crate::grid::LifeBoard;
use crate::rules::{Point, evolve_within, live_neighbors, next_generation, next_generation_within, nonzero_counts, with_cell};

verus! {

/// Setting a cell a second time to the same value changes neither the live
/// set nor any live-neighbour count.
pub proof fn lemma_set_is_idempotent(alive: Set<Point>, window: Set<Point>, p: Point, value: bool)
    ensures
        with_cell(with_cell(alive, p, value), p, value) == with_cell(alive, p, value),
        nonzero_counts(with_cell(with_cell(alive, p, value), p, value), window) == nonzero_counts(
            with_cell(alive, p, value),
            window,
        ),
{
    assert(with_cell(with_cell(alive, p, value), p, value) =~= with_cell(alive, p, value));
}

/// Changing a cell and changing it back leaves the live set and every
/// live-neighbour count as they were.
pub proof fn lemma_set_then_unset_restores(alive: Set<Point>, window: Set<Point>, p: Point)
    ensures
        with_cell(with_cell(alive, p, !alive.contains(p)), p, alive.contains(p)) == alive,
        nonzero_counts(
            with_cell(with_cell(alive, p, !alive.contains(p)), p, alive.contains(p)),
            window,
        ) == nonzero_counts(alive, window),
{
    assert(with_cell(with_cell(alive, p, !alive.contains(p)), p, alive.contains(p)) =~= alive);
}

/// Two consistent sparse boards with the same live cells store the same
/// counts: the counts are a function of the live set.
pub proof fn lemma_counts_follow_cells(a: &LifeBoard, b: &LifeBoard)
    requires
        a.wf(),
        b.wf(),
        a@ == b@,
    ensures
        a.counts() == b.counts(),
{
}

/// One generation inside a region is one generation inside any larger
/// region, cut down to the smaller one.
pub proof fn lemma_generation_restricts(alive: Set<Point>, small: Set<Point>, large: Set<Point>)
    requires
        small.subset_of(large),
    ensures
        next_generation_within(alive, small) == next_generation_within(alive, large).intersect(
            small,
        ),
{
    assert(next_generation_within(alive, small) =~= next_generation_within(
        alive,
        large,
    ).intersect(small));
}

/// For as long as the population of the larger board stays inside the
/// smaller region, the two boards show the same cells alive, generation by
/// generation.
pub proof fn lemma_evolution_agrees(
    alive: Set<Point>,
    small: Set<Point>,
    large: Set<Point>,
    n: nat,
)
    requires
        small.subset_of(large),
        forall|k: nat| k <= n ==> #[trigger] evolve_within(alive, large, k).subset_of(small),
    ensures
        evolve_within(alive, small, n) == evolve_within(alive, large, n),
    decreases n,
{
    if n > 0 {
        let m = (n - 1) as nat;
        lemma_evolution_agrees(alive, small, large, m);
        let earlier = evolve_within(alive, large, m);
        lemma_generation_restricts(earlier, small, large);
        assert(evolve_within(alive, large, n).subset_of(small));
        assert(evolve_within(alive, large, n).intersect(small) =~= evolve_within(alive, large, n));
    }
}

/// While no live cell touches the rim of the coordinate range, the sparse
/// board's generation is that of the unbounded plane: nothing is born where
/// no `Cell` can name it.
pub proof fn lemma_sparse_step_is_plane_step(alive: Set<Point>)
    requires
        forall|p: Point|
            alive.contains(p) ==> i64::MIN < p.0 < i64::MAX && i64::MIN < p.1 < i64::MAX,
    ensures
        next_generation_within(alive, plane()) == next_generation(alive),
{
    assert forall|q: Point| next_generation(alive).contains(q) implies plane().contains(q) by {
        assert(live_neighbors(alive, q) > 0);
    }
    assert(next_generation_within(alive, plane()) =~= next_generation(alive));
}

/// Boards of any two kinds that hold the same points and the same live
/// cells show the same cells alive after any number of generations.
pub proof fn lemma_same_game<A: Board, B: Board>(a: &A, b: &B, n: nat)
    requires
        a.window() == b.window(),
        a.cells() == b.cells(),
    ensures
        evolve_within(a.cells(), a.window(), n) == evolve_within(b.cells(), b.window(), n),
{
}

/// The two bounded boards, given the same size and the same live cells,
/// show the same cells alive after any number of generations; and so does
/// the sparse board, for as long as its population stays on the bounded
/// boards' grid.
pub proof fn lemma_variants_agree(
    rescan: &DenseRescanBoard,
    cached: &DenseCachedBoard,
    sparse: &LifeBoard,
    n: nat,
)
    requires
        rescan.wf(),
        cached.wf(),
        sparse.wf(),
        rescan.width() == cached.width(),
        rescan.height() == cached.height(),
        rescan@ == cached@,
        rescan@ == sparse@,
    ensures
        evolve_within(rescan@, rescan.window(), n) == evolve_within(cached@, cached.window(), n),
        (forall|k: nat| k <= n ==> #[trigger] evolve_within(sparse@, plane(), k).subset_of(
            rescan.window(),
        )) ==> evolve_within(sparse@, plane(), n) == evolve_within(rescan@, rescan.window(), n),
{
    rescan.lemma_window_in_plane();
    if forall|k: nat| k <= n ==> #[trigger] evolve_within(sparse@, plane(), k).subset_of(
        rescan.window(),
    ) {
        lemma_evolution_agrees(sparse@, rescan.window(), plane(), n);
    }
}

} // verus!
