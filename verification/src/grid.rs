//! The wall map: an immutable collection of occupied unit grid cells.

use vstd::prelude::*;

verus! {

/// A unit grid square `[x, x+1) x [y, y+1)`, identified by its integer
/// corner coordinates.
#[derive(Clone, Copy, Debug, PartialEq, Eq, Structural)]
pub struct Cell {
    pub x: i64,
    pub y: i64,
}

/// The set of occupied grid cells, built once at world creation and
/// read-only thereafter. Membership is what matters: a cell listed twice
/// occupies the grid exactly as if it were listed once.
pub struct WallMap {
    cells: Vec<Cell>,
}

impl View for WallMap {
    type V = Seq<Cell>;

    closed spec fn view(&self) -> Seq<Cell> {
        self.cells@
    }
}

impl WallMap {
    /// Whether the cell at `(x, y)` is occupied.
    pub open spec fn has(self, x: int, y: int) -> bool {
        exists|i: int|
            0 <= i < self@.len() && (#[trigger] self@[i]).x == x && self@[i].y == y
    }

    /// Builds the map from the supplied list of occupied cells.
    pub fn new(cells: Vec<Cell>) -> (m: WallMap)
        ensures
            m@ == cells@,
    {
        WallMap { cells }
    }

    /// Membership test: whether the cell at `(x, y)` is occupied.
    pub fn contains(&self, x: i64, y: i64) -> (r: bool)
        ensures
            r == self.has(x as int, y as int),
    {
        let n = self.cells.len();
        let mut i: usize = 0;
        while i < n
            invariant
                n == self@.len(),
                i <= n,
                forall|j: int|
                    0 <= j < i ==> !((#[trigger] self@[j]).x == x && self@[j].y == y),
            decreases n - i,
        {
            let c = self.cells[i];
            if c.x == x && c.y == y {
                assert(self@[i as int].x == x as int && self@[i as int].y == y as int);
                return true;
            }
            i += 1;
        }
        false
    }

    /// The number of listed cells.
    pub fn len(&self) -> (n: usize)
        ensures
            n == self@.len(),
    {
        self.cells.len()
    }
}

} // verus!
