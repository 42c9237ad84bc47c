//! Coordinates on a rectangular grid, and the neighbours of a cell.
use vstd::prelude::*;

use crate::Direction;

verus! {

/// A cell of the grid: `row` counts down from the top, `col` from the left.
/// The derived order is row-major.
#[derive(Clone, Copy, Debug, PartialEq, Eq, Structural, PartialOrd, Ord, Hash)]
pub struct Coord {
    pub row: usize,
    pub col: usize,
}

/// The extent of a grid: `n_rows` rows of `n_cols` cells each.
#[derive(Clone, Copy, Debug, PartialEq, Eq, Structural)]
pub struct Grid {
    pub n_rows: usize,
    pub n_cols: usize,
}

impl Grid {
    /// A grid has at least one cell, and each cell has a row-major index
    /// that fits in `usize`.
    pub open spec fn wf(self) -> bool {
        &&& 0 < self.n_rows
        &&& 0 < self.n_cols
        &&& self.n_rows * self.n_cols <= usize::MAX
    }

    pub open spec fn size(self) -> nat {
        (self.n_rows * self.n_cols) as nat
    }

    pub open spec fn spec_contains(self, c: Coord) -> bool {
        c.row < self.n_rows && c.col < self.n_cols
    }

    /// The row-major position of `c`.
    pub open spec fn index_of(self, c: Coord) -> int {
        c.row * self.n_cols + c.col
    }

    pub open spec fn spec_min(self) -> Coord {
        Coord { row: 0, col: 0 }
    }

    pub open spec fn spec_max(self) -> Coord {
        Coord { row: (self.n_rows - 1) as usize, col: (self.n_cols - 1) as usize }
    }

    /// The cell next to `c` in direction `d`, if both lie on the grid.
    pub open spec fn spec_neighbor(self, c: Coord, d: Direction) -> Option<Coord> {
        if !self.spec_contains(c) {
            None
        } else {
            match d {
                Direction::North => if c.row > 0 {
                    Some(Coord { row: (c.row - 1) as usize, col: c.col })
                } else {
                    None
                },
                Direction::South => if c.row + 1 < self.n_rows {
                    Some(Coord { row: (c.row + 1) as usize, col: c.col })
                } else {
                    None
                },
                Direction::East => if c.col + 1 < self.n_cols {
                    Some(Coord { row: c.row, col: (c.col + 1) as usize })
                } else {
                    None
                },
                Direction::West => if c.col > 0 {
                    Some(Coord { row: c.row, col: (c.col - 1) as usize })
                } else {
                    None
                },
            }
        }
    }

    /// A grid of the given extent, if it has a cell and its size fits in `usize`.
    pub fn new(n_rows: usize, n_cols: usize) -> (r: Option<Grid>)
        ensures
            r is Some <==> (0 < n_rows && 0 < n_cols && n_rows * n_cols <= usize::MAX),
            r matches Some(g) ==> g.n_rows == n_rows && g.n_cols == n_cols && g.wf(),
    {
        if n_rows == 0 || n_cols == 0 {
            return None;
        }
        match n_rows.checked_mul(n_cols) {
            Some(_) => Some(Grid { n_rows, n_cols }),
            None => None,
        }
    }

    pub fn contains(&self, c: Coord) -> (r: bool)
        ensures
            r == self.spec_contains(c),
    {
        c.row < self.n_rows && c.col < self.n_cols
    }

    /// The coordinate `(row, col)`, if it lies on the grid.
    pub fn ix(&self, row: usize, col: usize) -> (r: Option<Coord>)
        ensures
            r is Some <==> (row < self.n_rows && col < self.n_cols),
            r matches Some(c) ==> c.row == row && c.col == col,
    {
        if row < self.n_rows && col < self.n_cols {
            Some(Coord { row, col })
        } else {
            None
        }
    }

    /// The top-left cell.
    pub fn min(&self) -> (r: Coord)
        ensures
            r == self.spec_min(),
    {
        Coord { row: 0, col: 0 }
    }

    /// The bottom-right cell.
    pub fn max(&self) -> (r: Coord)
        requires
            self.wf(),
        ensures
            r == self.spec_max(),
    {
        Coord { row: self.n_rows - 1, col: self.n_cols - 1 }
    }

    /// The neighbour of `c` in direction `d`; `None` at the edge of the grid
    /// and for a coordinate off the grid.
    pub fn neighbor(&self, c: Coord, d: Direction) -> (r: Option<Coord>)
        ensures
            r == self.spec_neighbor(c, d),
    {
        if !self.contains(c) {
            return None;
        }
        match d {
            Direction::North => if c.row > 0 {
                Some(Coord { row: c.row - 1, col: c.col })
            } else {
                None
            },
            Direction::South => if c.row < self.n_rows - 1 {
                Some(Coord { row: c.row + 1, col: c.col })
            } else {
                None
            },
            Direction::East => if c.col < self.n_cols - 1 {
                Some(Coord { row: c.row, col: c.col + 1 })
            } else {
                None
            },
            Direction::West => if c.col > 0 {
                Some(Coord { row: c.row, col: c.col - 1 })
            } else {
                None
            },
        }
    }

    /// The row-major position of `c`, as an index into a vector of the cells.
    pub fn flat_index(&self, c: Coord) -> (r: usize)
        requires
            self.wf(),
            self.spec_contains(c),
        ensures
            r == self.index_of(c),
            r < self.size(),
    {
        proof {
            lemma_index_in_range(*self, c);
        }
        c.row * self.n_cols + c.col
    }

    /// All cells, in row-major order.
    pub fn indices(&self) -> (r: Vec<Coord>)
        requires
            self.wf(),
        ensures
            r@.len() == self.size(),
            forall|i: int|
                0 <= i < r@.len() ==> self.spec_contains(#[trigger] r@[i]) && self.index_of(r@[i])
                    == i,
    {
        let mut out: Vec<Coord> = Vec::new();
        let mut row: usize = 0;
        while row < self.n_rows
            invariant
                self.wf(),
                row <= self.n_rows,
                out@.len() == row * self.n_cols,
                forall|i: int|
                    0 <= i < out@.len() ==> self.spec_contains(#[trigger] out@[i])
                        && self.index_of(out@[i]) == i,
            decreases self.n_rows - row,
        {
            let mut col: usize = 0;
            while col < self.n_cols
                invariant
                    self.wf(),
                    row < self.n_rows,
                    col <= self.n_cols,
                    out@.len() == row * self.n_cols + col,
                    forall|i: int|
                        0 <= i < out@.len() ==> self.spec_contains(#[trigger] out@[i])
                            && self.index_of(out@[i]) == i,
                decreases self.n_cols - col,
            {
                out.push(Coord { row, col });
                col = col + 1;
            }
            proof {
                assert((row + 1) * self.n_cols == row * self.n_cols + self.n_cols)
                    by (nonlinear_arith);
            }
            row = row + 1;
        }
        proof {
            assert(out@.len() == self.size());
        }
        out
    }
}

/// `x` lies within one row and one column of `c`.
pub open spec fn near(c: Coord, x: Coord) -> bool {
    &&& c.row <= x.row + 1
    &&& x.row <= c.row + 1
    &&& c.col <= x.col + 1
    &&& x.col <= c.col + 1
}

/// `a` comes before `b` in row-major order.
pub open spec fn row_major_before(a: Coord, b: Coord) -> bool {
    a.row < b.row || (a.row == b.row && a.col < b.col)
}

proof fn lemma_push_contains(s: Seq<Coord>, v: Coord)
    ensures
        forall|x: Coord| #[trigger] s.push(v).contains(x) <==> s.contains(x) || x == v,
{
    assert forall|x: Coord| #[trigger] s.push(v).contains(x) <==> s.contains(x) || x == v by {
        if s.push(v).contains(x) {
            let k = choose|k: int| 0 <= k < s.push(v).len() && s.push(v)[k] == x;
            if k < s.len() {
                assert(s[k] == x);
            }
        }
        if s.contains(x) {
            let k = choose|k: int| 0 <= k < s.len() && s[k] == x;
            assert(s.push(v)[k] == x);
        }
        if x == v {
            assert(s.push(v)[s.len() as int] == x);
        }
    }
}

impl Grid {
    /// The cells within one step of `c`, diagonals included and `c` itself
    /// among them, in row-major order.
    pub fn around(&self, c: Coord) -> (r: Vec<Coord>)
        requires
            self.wf(),
            self.spec_contains(c),
        ensures
            forall|x: Coord| #[trigger] r@.contains(x) <==> self.spec_contains(x) && near(c, x),
            forall|i: int, j: int|
                0 <= i < j < r@.len() ==> row_major_before(#[trigger] r@[i], #[trigger] r@[j]),
    {
        let r0 = if c.row > 0 { c.row - 1 } else { 0 };
        let r1 = if c.row + 1 < self.n_rows { c.row + 1 } else { c.row };
        let c0 = if c.col > 0 { c.col - 1 } else { 0 };
        let c1 = if c.col + 1 < self.n_cols { c.col + 1 } else { c.col };
        let mut out: Vec<Coord> = Vec::new();
        let mut row = r0;
        while row <= r1
            invariant
                self.wf(),
                self.spec_contains(c),
                r0 <= row <= r1 + 1,
                r1 < self.n_rows,
                c1 < self.n_cols,
                c0 <= c1,
                r0 == (if c.row > 0 { c.row - 1 } else { 0 }),
                r1 == (if c.row + 1 < self.n_rows { c.row + 1 } else { c.row as int }),
                c0 == (if c.col > 0 { c.col - 1 } else { 0 }),
                c1 == (if c.col + 1 < self.n_cols { c.col + 1 } else { c.col as int }),
                forall|x: Coord|
                    #[trigger] out@.contains(x) <==> (r0 <= x.row < row && c0 <= x.col <= c1),
                forall|i: int| 0 <= i < out@.len() ==> (#[trigger] out@[i]).row < row,
                forall|i: int, j: int|
                    0 <= i < j < out@.len() ==> row_major_before(#[trigger] out@[i], #[trigger] out@[j]),
            decreases r1 + 1 - row,
        {
            let mut col = c0;
            while col <= c1
                invariant
                    r0 <= row <= r1,
                    r1 < self.n_rows,
                    c0 <= col <= c1 + 1,
                    c1 < self.n_cols,
                    forall|x: Coord|
                        #[trigger] out@.contains(x) <==> ((r0 <= x.row < row && c0 <= x.col <= c1)
                            || (x.row == row && c0 <= x.col < col)),
                    forall|i: int|
                        0 <= i < out@.len() ==> row_major_before(
                            #[trigger] out@[i],
                            Coord { row, col },
                        ),
                    forall|i: int, j: int|
                        0 <= i < j < out@.len() ==> row_major_before(
                            #[trigger] out@[i],
                            #[trigger] out@[j],
                        ),
                decreases c1 + 1 - col,
            {
                let ghost before = out@;
                out.push(Coord { row, col });
                proof {
                    lemma_push_contains(before, Coord { row, col });
                    assert forall|i: int, j: int|
                        0 <= i < j < out@.len() implies row_major_before(
                        #[trigger] out@[i],
                        #[trigger] out@[j],
                    ) by {
                        if j == before.len() {
                            assert(out@[i] == before[i]);
                        } else {
                            assert(out@[i] == before[i] && out@[j] == before[j]);
                        }
                    }
                }
                col = col + 1;
            }
            row = row + 1;
        }
        out
    }
}

/// A cell's row-major index is below the number of cells.
pub proof fn lemma_index_in_range(g: Grid, c: Coord)
    requires
        g.wf(),
        g.spec_contains(c),
    ensures
        0 <= g.index_of(c) < g.size(),
{
    let r = c.row as int;
    let k = c.col as int;
    let n = g.n_rows as int;
    let m = g.n_cols as int;
    assert(0 <= r * m + k < n * m) by (nonlinear_arith)
        requires
            0 <= r < n,
            0 <= k < m,
    ;
}

/// Distinct cells have distinct row-major indices.
pub proof fn lemma_index_injective(g: Grid, a: Coord, b: Coord)
    requires
        g.spec_contains(a),
        g.spec_contains(b),
    ensures
        g.index_of(a) == g.index_of(b) <==> a == b,
{
    let m = g.n_cols as int;
    let (ra, ka, rb, kb) = (a.row as int, a.col as int, b.row as int, b.col as int);
    if ra * m + ka == rb * m + kb {
        assert(ra == rb) by (nonlinear_arith)
            requires
                ra * m + ka == rb * m + kb,
                0 <= ka < m,
                0 <= kb < m,
                0 <= ra,
                0 <= rb,
        ;
    }
}

/// Stepping to a neighbour and back returns to the start.
pub proof fn lemma_neighbor_back(g: Grid, c: Coord, d: Direction)
    ensures
        g.spec_neighbor(c, d) matches Some(n) ==> g.spec_neighbor(n, d.spec_opposite()) == Some(c),
{
}

} // verus!
