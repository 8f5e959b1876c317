//! The chunk change matrix and the per-chunk scan planner.
//!
//! Entry (cr, cc) of the matrix is `true` when some cell of chunk (cr, cc)
//! changed value during the most recent completed tick. The planner turns
//! those flags into a per-chunk decision: skip the chunk, rescan only its
//! border ring, or rescan all of it.

use vstd::prelude::*;
use crate::grid::Grid;
use crate::model::{matrix_wf, in_grid, any_neighbor_marked};

verus! {

/// One boolean per chunk: did the chunk change during the last tick?
pub struct ChunkGrid {
    flags: Grid,
}

impl View for ChunkGrid {
    type V = Seq<Seq<bool>>;

    closed spec fn view(&self) -> Seq<Seq<bool>> {
        self.flags@
    }
}

impl ChunkGrid {
    /// Side length of the square chunk matrix.
    pub open spec fn side(&self) -> int {
        self@.len() as int
    }

    pub open spec fn wf(&self) -> bool {
        matrix_wf(self@, self.side())
    }

    /// A fresh chunk matrix of side `nc` with every flag set to `value`.
    /// An all-`true` matrix is the conservative reset: every chunk will be
    /// rescanned on the next tick.
    pub fn new_filled(nc: usize, value: bool) -> (cg: ChunkGrid)
        ensures
            cg.wf(),
            cg.side() == nc,
            forall|i: int, j: int| in_grid(nc as int, i, j) ==> cg@[i][j] == value,
    {
        ChunkGrid { flags: Grid::new_filled(nc, value) }
    }

    /// Wrap an already-square matrix of flag rows.
    pub fn from_rows(flags: Vec<Vec<bool>>) -> (cg: ChunkGrid)
        requires
            forall|i: int| 0 <= i < flags@.len() ==> (#[trigger] flags@[i])@.len() == flags@.len(),
        ensures
            cg.wf(),
            cg.side() == flags@.len(),
            forall|i: int, j: int|
                in_grid(flags@.len() as int, i, j) ==> cg@[i][j] == flags@[i]@[j],
    {
        ChunkGrid { flags: Grid::from_rows(flags) }
    }

    /// Number of chunk rows (and columns), as an executable value.
    pub fn len(&self) -> (nc: usize)
        ensures
            nc == self.side(),
    {
        self.flags.len()
    }

    /// Read one chunk flag.
    pub fn get(&self, cr: usize, cc: usize) -> (marked: bool)
        requires
            self.wf(),
            in_grid(self.side(), cr as int, cc as int),
        ensures
            marked == self@[cr as int][cc as int],
    {
        self.flags.get(cr, cc)
    }

    /// Write one chunk flag; every other flag keeps its value.
    pub fn set(&mut self, cr: usize, cc: usize, marked: bool)
        requires
            old(self).wf(),
            in_grid(old(self).side(), cr as int, cc as int),
        ensures
            final(self).wf(),
            final(self).side() == old(self).side(),
            final(self)@[cr as int][cc as int] == marked,
            forall|i: int, j: int|
                in_grid(final(self).side(), i, j) && !(i == cr && j == cc) ==> final(self)@[i][j]
                    == old(self)@[i][j],
    {
        self.flags.set(cr, cc, marked);
    }

    /// A full, independent copy: same side, same flags.
    pub fn duplicate(&self) -> (cg: ChunkGrid)
        requires
            self.wf(),
        ensures
            cg.wf(),
            cg@ == self@,
    {
        ChunkGrid { flags: self.flags.duplicate() }
    }

    /// Did any of the up-to-8 chunk-neighbors of (cr, cc) change during the
    /// last tick? The chunk's own flag is not consulted.
    pub fn has_changed_neighbors(&self, cr: usize, cc: usize) -> (found: bool)
        requires
            self.wf(),
            in_grid(self.side(), cr as int, cc as int),
        ensures
            found == any_neighbor_marked(self@, self.side(), cr as int, cc as int),
    {
        let nc = self.len();
        let mut found = false;
        if cr > 0 && cc > 0 && self.get(cr - 1, cc - 1) {
            found = true;
        }
        if cr > 0 && self.get(cr - 1, cc) {
            found = true;
        }
        if cr > 0 && cc + 1 < nc && self.get(cr - 1, cc + 1) {
            found = true;
        }
        if cc > 0 && self.get(cr, cc - 1) {
            found = true;
        }
        if cc + 1 < nc && self.get(cr, cc + 1) {
            found = true;
        }
        if cr + 1 < nc && cc > 0 && self.get(cr + 1, cc - 1) {
            found = true;
        }
        if cr + 1 < nc && self.get(cr + 1, cc) {
            found = true;
        }
        if cr + 1 < nc && cc + 1 < nc && self.get(cr + 1, cc + 1) {
            found = true;
        }
        found
    }
}

/// The planner's decision for one chunk on the upcoming tick.
pub enum ScanAction {
    /// Neither the chunk nor any chunk-neighbor changed: evaluate nothing.
    Skip,
    /// Only a neighbor changed: evaluate just the chunk's outer cell ring.
    BorderOnly,
    /// The chunk itself changed: evaluate all of its cells.
    FullScan,
}

/// The decision the planner owes for chunk (cr, cc) given the flags `cg`.
pub open spec fn plan_action(cg: Seq<Seq<bool>>, nc: int, cr: int, cc: int) -> ScanAction {
    if cg[cr][cc] {
        ScanAction::FullScan
    } else if any_neighbor_marked(cg, nc, cr, cc) {
        ScanAction::BorderOnly
    } else {
        ScanAction::Skip
    }
}

impl ChunkGrid {
    /// Decide how the upcoming tick must treat chunk (cr, cc).
    pub fn plan_chunk(&self, cr: usize, cc: usize) -> (action: ScanAction)
        requires
            self.wf(),
            in_grid(self.side(), cr as int, cc as int),
        ensures
            action == plan_action(self@, self.side(), cr as int, cc as int),
    {
        if self.get(cr, cc) {
            ScanAction::FullScan
        } else if self.has_changed_neighbors(cr, cc) {
            ScanAction::BorderOnly
        } else {
            ScanAction::Skip
        }
    }
}

} // verus!
