//! The rectangle of a bounded board: which points lie on it, where each is
//! kept in a store that holds the rows one after another, and what a board
//! answers to coordinates that lie off it.
use vstd::prelude::*;
use crate::rules::Point;

verus! {

/// `p` lies on a board of `width` columns and `height` rows.
pub open spec fn in_grid(width: int, height: int, p: Point) -> bool {
    &&& 0 <= p.0 < width
    &&& 0 <= p.1 < height
}

/// The points of a board of `width` columns and `height` rows.
pub open spec fn grid(width: int, height: int) -> Set<Point> {
    Set::new(|p: Point| in_grid(width, height, p))
}

/// The place of `p` in a store that holds the rows one after another.
pub open spec fn index_of(width: int, p: Point) -> int {
    p.1 * width + p.0
}

/// The live points of a board of `width` columns and `height` rows on which
/// each cell is as `flips` says, read row by row.
pub open spec fn pattern(flips: Seq<bool>, width: int, height: int) -> Set<Point> {
    Set::new(|p: Point| in_grid(width, height, p) && flips[index_of(width, p)])
}

/// Every point of the board has a place in the store.
pub proof fn lemma_index_in_store(width: int, height: int, p: Point)
    requires
        in_grid(width, height, p),
    ensures
        0 <= p.1 * width <= index_of(width, p) < width * height,
{
    assert(0 <= p.1 * width && p.1 * width + width <= width * height) by (nonlinear_arith)
        requires
            0 <= p.1 < height,
            0 < width,
    ;
}

/// On a board that a store can hold, a cell's coordinates leave room for
/// those of its neighbours.
pub proof fn lemma_coordinates_in_store(width: int, height: int, p: Point)
    requires
        in_grid(width, height, p),
    ensures
        p.0 < width <= width * height,
        p.1 < height <= width * height,
{
    assert(width <= width * height && height <= width * height) by (nonlinear_arith)
        requires
            0 < width,
            0 < height,
    ;
}

/// No two points of the board share a place in the store.
pub proof fn lemma_index_injective(width: int, height: int, p: Point, q: Point)
    requires
        in_grid(width, height, p),
        in_grid(width, height, q),
        index_of(width, p) == index_of(width, q),
    ensures
        p == q,
{
    if p.1 < q.1 {
        assert(p.1 * width + width <= q.1 * width) by (nonlinear_arith)
            requires
                p.1 < q.1,
                0 < width,
        ;
    }
    if q.1 < p.1 {
        assert(q.1 * width + width <= p.1 * width) by (nonlinear_arith)
            requires
                q.1 < p.1,
                0 < width,
        ;
    }
}

/// Whether `(x, y)` lies on a board of `width` columns and `height` rows.
pub fn point_in_grid(width: usize, height: usize, x: i64, y: i64) -> (inside: bool)
    ensures
        inside == in_grid(width as int, height as int, (x as int, y as int)),
{
    0 <= x && (x as i128) < (width as i128) && 0 <= y && (y as i128) < (height as i128)
}

/// The place of the cell at `(x, y)` in the store of a board.
pub fn store_index(width: usize, height: usize, x: i64, y: i64) -> (i: usize)
    requires
        width * height <= isize::MAX,
        in_grid(width as int, height as int, (x as int, y as int)),
    ensures
        i == index_of(width as int, (x as int, y as int)),
        i < width * height,
{
    proof {
        lemma_index_in_store(width as int, height as int, (x as int, y as int));
    }
    (y as usize) * width + (x as usize)
}

/// Why a bounded board turned a request down.
#[derive(Clone, Copy, Debug, PartialEq, Eq, Structural)]
pub enum BoardError {
    /// The coordinates name no cell of the board.
    OutOfBounds,
}

} // verus!
