//! Cells: their coordinates, lists of them, the neighbours of one, and the
//! integer under which the sparse board files a cell in its hash
//! collections.
use vstd::prelude::*;
use crate::rules::{Point, adjacent, live_neighbors, live_neighbors_before, rank};

verus! {

/// The coordinates of one cell.
#[derive(Clone, Copy, Debug, Hash, PartialEq, Eq, Structural)]
pub struct Cell {
    pub x: i64,
    pub y: i64,
}

impl View for Cell {
    type V = Point;

    open spec fn view(&self) -> Point {
        (self.x as int, self.y as int)
    }
}

impl Cell {
    /// The cell at `(x, y)`.
    pub fn new(x: i64, y: i64) -> (cell: Cell)
        ensures
            cell.x == x,
            cell.y == y,
            cell@ == (x as int, y as int),
    {
        Cell { x: x, y: y }
    }
}

/// `p` has coordinates that a `Cell` can hold.
pub open spec fn in_plane(p: Point) -> bool {
    &&& i64::MIN <= p.0 <= i64::MAX
    &&& i64::MIN <= p.1 <= i64::MAX
}

/// All points that a `Cell` can name.
pub open spec fn plane() -> Set<Point> {
    Set::new(|p: Point| in_plane(p))
}

/// The number of values of one coordinate.
pub open spec fn span() -> int {
    0x1_0000_0000_0000_0000
}

/// The key of a point: its two coordinates, each shifted to start at zero,
/// side by side in one integer.
pub open spec fn key_of(p: Point) -> int {
    (p.0 - i64::MIN) * span() + (p.1 - i64::MIN)
}

/// The point that a key stands for.
pub open spec fn point_of(k: int) -> Point {
    (k / span() + i64::MIN, k % span() + i64::MIN)
}

/// Keys and the points of the plane correspond one to one.
pub proof fn lemma_key_round_trip(p: Point)
    requires
        in_plane(p),
    ensures
        0 <= key_of(p) <= u128::MAX,
        point_of(key_of(p)) == p,
{
}

/// Every key stands for a point of the plane, and is that point's key.
pub proof fn lemma_point_round_trip(k: int)
    requires
        0 <= k <= u128::MAX,
    ensures
        in_plane(point_of(k)),
        key_of(point_of(k)) == k,
{
}

/// `q` is among the first `n` of `cells`.
pub open spec fn listed(cells: Seq<Cell>, n: int, q: Point) -> bool {
    exists|j: int| 0 <= j < n && (#[trigger] cells[j])@ == q
}

/// Being among the first `n + 1` cells is being among the first `n`, or
/// being the next one.
pub proof fn lemma_listed_next(cells: Seq<Cell>, n: int, q: Point)
    requires
        0 <= n < cells.len(),
    ensures
        listed(cells, n + 1, q) <==> listed(cells, n, q) || cells[n]@ == q,
{
    if listed(cells, n + 1, q) {
        let j = choose|j: int| 0 <= j < n + 1 && (#[trigger] cells[j])@ == q;
        if j < n {
            assert(listed(cells, n, q));
        }
    }
    if listed(cells, n, q) {
        let j = choose|j: int| 0 <= j < n && (#[trigger] cells[j])@ == q;
        assert(0 <= j < n + 1 && cells[j]@ == q);
    }
    if cells[n]@ == q {
        assert(0 <= n < n + 1 && cells[n]@ == q);
    }
}

/// Two sequences that agree on their first `n` cells list the same points
/// among them.
pub proof fn lemma_listed_prefix(a: Seq<Cell>, b: Seq<Cell>, n: int, q: Point)
    requires
        0 <= n <= a.len(),
        n <= b.len(),
        forall|j: int| 0 <= j < n ==> a[j] == b[j],
    ensures
        listed(a, n, q) <==> listed(b, n, q),
{
    if listed(a, n, q) {
        let j = choose|j: int| 0 <= j < n && (#[trigger] a[j])@ == q;
        assert(b[j]@ == q);
    }
    if listed(b, n, q) {
        let j = choose|j: int| 0 <= j < n && (#[trigger] b[j])@ == q;
        assert(a[j]@ == q);
    }
}

/// The cells of the list come row by row, and from left to right in each
/// row.
pub open spec fn in_reading_order(cells: Seq<Cell>) -> bool {
    forall|i: int, j: int|
        0 <= i < j < cells.len() ==> (#[trigger] cells[i]).y < (#[trigger] cells[j]).y || (
        cells[i].y == cells[j].y && cells[i].x < cells[j].x)
}

/// Each cell of the list comes later, row by row, in the block around `p`
/// than the cells before it.
pub open spec fn in_block_order(cells: Seq<Cell>, p: Point) -> bool {
    forall|i: int, j: int|
        0 <= i < j < cells.len() ==> rank(p, (#[trigger] cells[i])@) < rank(
            p,
            (#[trigger] cells[j])@,
        )
}

/// The points from `x_min` to `x_max` and from `y_min` to `y_max`, bounds
/// included.
pub open spec fn rectangle(x_min: int, x_max: int, y_min: int, y_max: int) -> Set<Point> {
    Set::new(|q: Point| x_min <= q.0 <= x_max && y_min <= q.1 <= y_max)
}

/// The neighbours of `(x, y)` that lie in the rectangle from `x_min` to
/// `x_max` and from `y_min` to `y_max`, bounds included, row by row.
pub fn neighbors_within(x: i64, y: i64, x_min: i64, x_max: i64, y_min: i64, y_max: i64) -> (cells:
    Vec<Cell>)
    ensures
        cells@.no_duplicates(),
        cells.len() == live_neighbors(
            rectangle(x_min as int, x_max as int, y_min as int, y_max as int),
            (x as int, y as int),
        ),
        cells.len() <= 8,
        in_block_order(cells@, (x as int, y as int)),
        forall|q: Point|
            (x_min <= q.0 <= x_max && y_min <= q.1 <= y_max && adjacent((x as int, y as int), q))
                <==> #[trigger] listed(cells@, cells@.len() as int, q),
{
    let ghost p: Point = (x as int, y as int);
    let ghost inside = rectangle(x_min as int, x_max as int, y_min as int, y_max as int);
    let mut cells: Vec<Cell> = Vec::new();
    let mut dy: i128 = -1;
    while dy <= 1
        invariant
            -1 <= dy <= 2,
            p == (x as int, y as int),
            inside == rectangle(x_min as int, x_max as int, y_min as int, y_max as int),
            cells.len() == live_neighbors_before(inside, p, (dy + 1) * 3),
            forall|i: int|
                0 <= i < cells.len() ==> adjacent(p, (#[trigger] cells[i])@) && rank(p, cells[i]@) < (dy
                    + 1) * 3 && x_min <= cells[i].x <= x_max && y_min <= cells[i].y <= y_max,
            in_block_order(cells@, p),
            forall|q: Point|
                x_min <= q.0 <= x_max && y_min <= q.1 <= y_max && adjacent(p, q) && rank(p, q) < (dy
                    + 1) * 3 ==> listed(cells@, cells@.len() as int, q),
        decreases 2 - dy,
    {
        let mut dx: i128 = -1;
        while dx <= 1
            invariant
                -1 <= dy <= 1,
                -1 <= dx <= 2,
                p == (x as int, y as int),
                inside == rectangle(x_min as int, x_max as int, y_min as int, y_max as int),
                cells.len() == live_neighbors_before(inside, p, (dy + 1) * 3 + (dx + 1)),
                forall|i: int|
                    0 <= i < cells.len() ==> adjacent(p, (#[trigger] cells[i])@) && rank(
                        p,
                        cells[i]@,
                    ) < (dy + 1) * 3 + (dx + 1) && x_min <= cells[i].x <= x_max && y_min
                        <= cells[i].y <= y_max,
                in_block_order(cells@, p),
                forall|q: Point|
                    x_min <= q.0 <= x_max && y_min <= q.1 <= y_max && adjacent(p, q) && rank(p, q)
                        < (dy + 1) * 3 + (dx + 1) ==> listed(cells@, cells@.len() as int, q),
            decreases 2 - dx,
        {
            let cx: i128 = x as i128 + dx;
            let cy: i128 = y as i128 + dy;
            if (dx != 0 || dy != 0) && x_min as i128 <= cx && cx <= x_max as i128 && y_min as i128
                <= cy && cy <= y_max as i128 {
                let ghost before = cells@;
                let cell = Cell { x: cx as i64, y: cy as i64 };
                cells.push(cell);
                assert forall|q: Point|
                    x_min <= q.0 <= x_max && y_min <= q.1 <= y_max && adjacent(p, q) && rank(p, q)
                        < (dy + 1) * 3 + (dx + 2) implies listed(cells@, cells@.len() as int, q) by {
                    if rank(p, q) < (dy + 1) * 3 + (dx + 1) {
                        let i = choose|i: int| 0 <= i < before.len() && (#[trigger] before[i])@ == q;
                        assert(cells@[i]@ == q);
                    } else {
                        assert(cells@[cells.len() - 1]@ == q);
                    }
                }
            }
            dx = dx + 1;
        }
        dy = dy + 1;
    }
    proof {
        assert forall|q: Point| listed(cells@, cells@.len() as int, q) implies x_min <= q.0 <= x_max
            && y_min <= q.1 <= y_max && adjacent(p, q) by {
            let i = choose|i: int| 0 <= i < cells.len() && (#[trigger] cells@[i])@ == q;
        }
    }
    cells
}

/// Computes the key of the cell at `(x, y)`.
pub fn cell_key(x: i64, y: i64) -> (k: u128)
    ensures
        k == key_of((x as int, y as int)),
{
    let ux: u128 = (x as i128 - i64::MIN as i128) as u128;
    let uy: u128 = (y as i128 - i64::MIN as i128) as u128;
    ux * 0x1_0000_0000_0000_0000u128 + uy
}

/// Recovers the cell from its key.
pub fn key_cell(k: u128) -> (cell: Cell)
    ensures
        cell@ == point_of(k as int),
        key_of(cell@) == k,
{
    let ux: u128 = k / 0x1_0000_0000_0000_0000u128;
    let uy: u128 = k % 0x1_0000_0000_0000_0000u128;
    let x: i64 = (ux as i128 + i64::MIN as i128) as i64;
    let y: i64 = (uy as i128 + i64::MIN as i128) as i64;
    Cell { x: x, y: y }
}

} // verus!
