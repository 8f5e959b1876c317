//! The cell matrix: a square, row-major grid of booleans with exact
//! contracts for reading, writing and neighbor counting.

use vstd::prelude::*;
use vstd::pervasive::VecAdditionalExecFns;
use crate::model::{
    matrix_wf, in_grid, neighbor_count, live_count, row_live_count, lemma_live_count_step,
    lemma_row_live_count_step,
};

verus! {

/// A square matrix of cells, alive (`true`) or dead (`false`).
pub struct Grid {
    cells: Vec<Vec<bool>>,
}

impl View for Grid {
    type V = Seq<Seq<bool>>;

    closed spec fn view(&self) -> Seq<Seq<bool>> {
        Seq::new(self.cells.len() as nat, |i: int| self.cells[i]@)
    }
}

impl Grid {
    /// Side length of the square grid.
    pub open spec fn side(&self) -> int {
        self@.len() as int
    }

    /// All rows have the same length as the number of rows.
    pub open spec fn wf(&self) -> bool {
        matrix_wf(self@, self.side())
    }

    /// A fresh grid of side `n` with every cell set to `value`.
    pub fn new_filled(n: usize, value: bool) -> (g: Grid)
        ensures
            g.wf(),
            g.side() == n,
            forall|r: int, c: int| in_grid(n as int, r, c) ==> g@[r][c] == value,
    {
        let mut cells: Vec<Vec<bool>> = Vec::new();
        let mut i: usize = 0;
        while i < n
            invariant
                i <= n,
                cells@.len() == i,
                forall|r: int| 0 <= r < i ==> (#[trigger] cells@[r])@.len() == n,
                forall|r: int, c: int|
                    #![trigger cells@[r]@[c]]
                    0 <= r < i && 0 <= c < n ==> cells@[r]@[c] == value,
            decreases n - i,
        {
            let row: Vec<bool> = vec![value; n];
            assert(forall|c: int| 0 <= c < n ==> row@[c] == value);
            cells.push(row);
            i = i + 1;
        }
        Grid { cells }
    }

    /// A fresh all-dead grid of side `n`.
    pub fn new(n: usize) -> (g: Grid)
        ensures
            g.wf(),
            g.side() == n,
            forall|r: int, c: int| in_grid(n as int, r, c) ==> !g@[r][c],
    {
        Grid::new_filled(n, false)
    }

    /// Wrap an already-square matrix of rows.
    pub fn from_rows(cells: Vec<Vec<bool>>) -> (g: Grid)
        requires
            forall|i: int| 0 <= i < cells@.len() ==> (#[trigger] cells@[i])@.len() == cells@.len(),
        ensures
            g.wf(),
            g.side() == cells@.len(),
            forall|i: int, j: int|
                in_grid(cells@.len() as int, i, j) ==> g@[i][j] == cells@[i]@[j],
    {
        Grid { cells }
    }

    /// Number of rows (and of columns), as an executable value.
    pub fn len(&self) -> (n: usize)
        ensures
            n == self.side(),
    {
        self.cells.len()
    }

    /// Read one cell.
    pub fn get(&self, r: usize, c: usize) -> (alive: bool)
        requires
            self.wf(),
            in_grid(self.side(), r as int, c as int),
        ensures
            alive == self@[r as int][c as int],
    {
        proof {
            assert(self@[r as int] == self.cells@[r as int]@);
            assert(self@[r as int].len() == self.side());
        }
        self.cells[r][c]
    }

    /// Write one cell; every other cell keeps its value.
    pub fn set(&mut self, r: usize, c: usize, alive: bool)
        requires
            old(self).wf(),
            in_grid(old(self).side(), r as int, c as int),
        ensures
            final(self).wf(),
            final(self).side() == old(self).side(),
            final(self)@[r as int][c as int] == alive,
            forall|i: int, j: int|
                in_grid(final(self).side(), i, j) && !(i == r && j == c) ==> final(self)@[i][j]
                    == old(self)@[i][j],
    {
        proof {
            assert(self@[r as int] == self.cells@[r as int]@);
            assert(self@[r as int].len() == self.side());
        }
        let row: &mut Vec<bool> = &mut self.cells[r];
        row.set(c, alive);
        // relate the updated rows back to the matrix view
        proof {
            assert(self.cells@.len() == old(self).cells@.len());
            assert forall|i: int| 0 <= i < self@.len() implies (#[trigger] self@[i]).len()
                == self.side() by {
                assert(self@[i] == self.cells@[i]@);
                assert(old(self)@[i] == old(self).cells@[i]@);
                assert(old(self)@[i].len() == old(self).side());
                if i != r {
                    assert(self.cells@[i] == old(self).cells@[i]);
                } else {
                    assert(self.cells@[i]@ == old(self).cells@[i]@.update(c as int, alive));
                }
            }
        }
    }

    /// Count of live cells among the Moore neighbors of (r, c); neighbors
    /// outside the grid do not exist and are never inspected, so the count
    /// can never exceed 8.
    pub fn get_neighbors(&self, r: usize, c: usize) -> (count: u8)
        requires
            self.wf(),
            in_grid(self.side(), r as int, c as int),
        ensures
            count as int == neighbor_count(self@, self.side(), r as int, c as int),
            count <= 8,
    {
        let n = self.len();
        let mut count: u8 = 0;
        if r > 0 && c > 0 && self.get(r - 1, c - 1) {
            count = count + 1;
        }
        if r > 0 && self.get(r - 1, c) {
            count = count + 1;
        }
        if r > 0 && c + 1 < n && self.get(r - 1, c + 1) {
            count = count + 1;
        }
        if c > 0 && self.get(r, c - 1) {
            count = count + 1;
        }
        if c + 1 < n && self.get(r, c + 1) {
            count = count + 1;
        }
        if r + 1 < n && c > 0 && self.get(r + 1, c - 1) {
            count = count + 1;
        }
        if r + 1 < n && self.get(r + 1, c) {
            count = count + 1;
        }
        if r + 1 < n && c + 1 < n && self.get(r + 1, c + 1) {
            count = count + 1;
        }
        count
    }

    /// Number of live cells in the whole grid.
    #[verifier::loop_isolation(false)]
    pub fn count_live(&self) -> (count: usize)
        requires
            self.wf(),
            self.side() * self.side() <= usize::MAX,
        ensures
            count as int == live_count(self@),
    {
        let n = self.len();
        let mut count: usize = 0;
        let mut i: usize = 0;
        while i < n
            invariant
                i <= n,
                count as int == live_count(self@.take(i as int)),
                count as int <= i as int * n,
            decreases n - i,
        {
            let mut j: usize = 0;
            while j < n
                invariant
                    j <= n,
                    i < n,
                    count as int == live_count(self@.take(i as int)) + row_live_count(
                        self@[i as int].take(j as int),
                    ),
                    count as int <= i as int * n + j,
                decreases n - j,
            {
                proof {
                    lemma_row_live_count_step(self@[i as int], j as int);
                    assert(i as int * n + j + 1 <= n * n) by (nonlinear_arith)
                        requires
                            0 <= (i as int) && (i as int) < n && 0 <= (j as int) && (j as int) < n,
                    ;
                }
                if self.get(i, j) {
                    count = count + 1;
                }
                j = j + 1;
            }
            proof {
                assert(self@[i as int].take(n as int) =~= self@[i as int]);
                lemma_live_count_step(self@, i as int);
                assert((i as int + 1) * n == i as int * n + n) by (nonlinear_arith);
            }
            i = i + 1;
        }
        proof {
            assert(self@.take(n as int) =~= self@);
        }
        count
    }

    /// A full, independent copy: same side, same cell values.
    pub fn duplicate(&self) -> (g: Grid)
        requires
            self.wf(),
        ensures
            g.wf(),
            g@ == self@,
    {
        let n = self.len();
        let mut cells: Vec<Vec<bool>> = Vec::new();
        let mut i: usize = 0;
        while i < n
            invariant
                i <= n,
                n == self.side(),
                self.wf(),
                cells@.len() == i,
                forall|k: int| 0 <= k < i ==> (#[trigger] cells@[k])@ == self@[k],
            decreases n - i,
        {
            proof {
                assert(self@[i as int] == self.cells@[i as int]@);
                assert(self@[i as int].len() == n);
            }
            let mut row: Vec<bool> = Vec::new();
            let mut j: usize = 0;
            while j < n
                invariant
                    j <= n,
                    i < n,
                    n == self.side(),
                    self.wf(),
                    row@.len() == j,
                    forall|k: int| 0 <= k < j ==> row@[k] == self@[i as int][k],
                decreases n - j,
            {
                row.push(self.get(i, j));
                j = j + 1;
            }
            proof {
                assert(row@ =~= self@[i as int]);
            }
            cells.push(row);
            i = i + 1;
        }
        let g = Grid { cells };
        proof {
            assert forall|k: int| 0 <= k < n implies #[trigger] g@[k] == self@[k] by {
                assert(g@[k] == g.cells@[k]@);
            }
            assert(g@ =~= self@);
        }
        g
    }
}

} // verus!
