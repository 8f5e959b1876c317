//! The simulation session: one object owning the grid, its snapshot, the
//! chunk change matrix, the run state and the generation counter. The
//! session enforces the protocol of the engine: edits only while not
//! running, a snapshot plus bootstrap on start, re-bootstrap on resume,
//! snapshot restore on abort, and ticks that keep the chunk matrix sound.

use vstd::prelude::*;
use vstd::arithmetic::div_mod::lemma_fundamental_div_mod;
use crate::grid::Grid;
use crate::chunks::ChunkGrid;
use crate::bootstrap::{bruteforce_changes, lemma_bootstrap_sound};
use crate::stepper::{iterate_generation, lemma_step_preserves_soundness};
use crate::model::{
    in_grid, chunk_has_live, chunk_differs, is_next_generation, live_count, stable_where_quiet,
};

verus! {

/// What the simulation is currently doing.
#[derive(Clone, Copy, PartialEq, Eq, Structural, Debug)]
pub enum RunState {
    /// Not simulating; the grid may be edited.
    Idle,
    /// Ticking; edits are ignored.
    Running,
    /// Ticking halted; may resume or abort.
    Paused,
}

/// A grid side `n` and chunk side `cs` the engine can be built on: chunks
/// tile the grid exactly, and the cell count fits the machine.
pub open spec fn valid_config(n: int, cs: int) -> bool {
    cs > 0 && n % cs == 0 && n * n <= usize::MAX
}

/// The demonstration start pattern: a Gosper glider gun with a lightweight
/// spaceship below it.
pub open spec fn start_pattern(r: int, c: int) -> bool {
    ||| (r == 44 && c == 48)
    ||| (r == 45 && (c == 46 || c == 48))
    ||| (r == 46 && (c == 36 || c == 37 || c == 44 || c == 45 || c == 58 || c == 59))
    ||| (r == 47 && (c == 35 || c == 39 || c == 44 || c == 45 || c == 58 || c == 59))
    ||| (r == 48 && (c == 24 || c == 25 || c == 34 || c == 40 || c == 44 || c == 45))
    ||| (r == 49 && (c == 24 || c == 25 || c == 34 || c == 38 || c == 40 || c == 41 || c == 46
        || c == 48))
    ||| (r == 50 && (c == 34 || c == 40 || c == 48))
    ||| (r == 51 && (c == 35 || c == 39))
    ||| (r == 52 && (c == 36 || c == 37))
    ||| (r == 67 && (c == 51 || c == 52))
    ||| (r == 68 && (c == 50 || c == 51 || c == 53 || c == 54))
    ||| (r == 69 && (c == 51 || c == 52 || c == 53 || c == 54))
    ||| (r == 70 && (c == 52 || c == 53))
}

/// One simulation session.
pub struct Session {
    n: usize,
    cs: usize,
    nc: usize,
    state: RunState,
    grid: Grid,
    snapshot: Grid,
    chunks: ChunkGrid,
    generation: u64,
}

impl Session {
    /// Side length of the cell grid.
    pub closed spec fn side(&self) -> int {
        self.n as int
    }

    /// Side length, in cells, of one chunk.
    pub closed spec fn chunk_size(&self) -> int {
        self.cs as int
    }

    /// Side length of the chunk matrix.
    pub closed spec fn chunk_side(&self) -> int {
        self.nc as int
    }

    /// The current run state.
    pub closed spec fn run_state(&self) -> RunState {
        self.state
    }

    /// The current cell matrix.
    pub closed spec fn grid_view(&self) -> Seq<Seq<bool>> {
        self.grid@
    }

    /// The grid as it was when the current run started.
    pub closed spec fn snapshot_view(&self) -> Seq<Seq<bool>> {
        self.snapshot@
    }

    /// The current chunk change matrix.
    pub closed spec fn chunks_view(&self) -> Seq<Seq<bool>> {
        self.chunks@
    }

    /// Number of completed generations of the current run.
    pub closed spec fn generation(&self) -> u64 {
        self.generation
    }

    /// Internal consistency: square well-formed matrices of matching sizes,
    /// chunks tiling the grid exactly, and - whenever the session is
    /// running - a chunk matrix that soundly over-approximates activity, so
    /// that the next tick may trust it.
    pub closed spec fn wf(&self) -> bool {
        &&& self.grid.wf()
        &&& self.grid.side() == self.n
        &&& self.snapshot.wf()
        &&& self.snapshot.side() == self.n
        &&& self.chunks.wf()
        &&& self.chunks.side() == self.nc
        &&& self.cs > 0
        &&& self.n == self.nc as int * self.cs
        &&& self.n as int * self.n <= usize::MAX
        &&& (self.state is Running ==> stable_where_quiet(
            self.grid@,
            self.chunks@,
            self.n as int,
            self.cs as int,
        ))
    }

    /// Build an idle session over an all-dead grid of side `n`, chunked
    /// into blocks of side `cs`. Misconfiguration - a chunk side that does
    /// not divide the grid side, or sizes the machine cannot hold - is
    /// rejected at construction and nowhere else.
    pub fn new(n: usize, cs: usize) -> (result: Option<Session>)
        ensures
            match result {
                Some(s) => {
                    &&& valid_config(n as int, cs as int)
                    &&& s.wf()
                    &&& s.side() == n
                    &&& s.chunk_size() == cs
                    &&& s.chunk_side() == n as int / cs as int
                    &&& s.run_state() is Idle
                    &&& s.generation() == 0
                    &&& forall|r: int, c: int| in_grid(n as int, r, c) ==> !s.grid_view()[r][c]
                    &&& forall|r: int, c: int| in_grid(n as int, r, c) ==> !s.snapshot_view()[r][c]
                    &&& forall|a: int, b: int|
                        in_grid(s.chunk_side(), a, b) ==> s.chunks_view()[a][b]
                },
                None => !valid_config(n as int, cs as int),
            },
    {
        if cs == 0 {
            return None;
        }
        if n % cs != 0 {
            return None;
        }
        if n.checked_mul(n).is_none() {
            return None;
        }
        let nc = n / cs;
        proof {
            lemma_fundamental_div_mod(n as int, cs as int);
            assert(cs as int * (n as int / cs as int) == (n as int / cs as int) * (cs as int))
                by (nonlinear_arith);
        }
        let grid = Grid::new(n);
        let snapshot = Grid::new(n);
        let chunks = ChunkGrid::new_filled(nc, true);
        Some(
            Session {
                n,
                cs,
                nc,
                state: RunState::Idle,
                grid,
                snapshot,
                chunks,
                generation: 0,
            },
        )
    }

    /// Read one cell.
    pub fn get_cell(&self, r: usize, c: usize) -> (alive: bool)
        requires
            self.wf(),
            r < self.side(),
            c < self.side(),
        ensures
            alive == self.grid_view()[r as int][c as int],
    {
        self.grid.get(r, c)
    }

    /// Side length of the cell grid, as an executable value.
    pub fn grid_len(&self) -> (n: usize)
        ensures
            n == self.side(),
    {
        self.n
    }

    /// Side length of the chunk matrix, as an executable value.
    pub fn chunk_matrix_len(&self) -> (nc: usize)
        ensures
            nc == self.chunk_side(),
    {
        self.nc
    }

    /// Read one chunk change flag.
    pub fn chunk_changed(&self, cr: usize, cc: usize) -> (marked: bool)
        requires
            self.wf(),
            cr < self.chunk_side(),
            cc < self.chunk_side(),
        ensures
            marked == self.chunks_view()[cr as int][cc as int],
    {
        self.chunks.get(cr, cc)
    }

    /// The current run state.
    pub fn current_state(&self) -> (state: RunState)
        ensures
            state == self.run_state(),
    {
        self.state
    }

    /// Number of completed generations of the current run.
    pub fn generation_count(&self) -> (generation: u64)
        ensures
            generation == self.generation(),
    {
        self.generation
    }

    /// Number of live cells in the current grid.
    pub fn population_count(&self) -> (population: usize)
        requires
            self.wf(),
        ensures
            population as int == live_count(self.grid_view()),
    {
        self.grid.count_live()
    }

    /// Set one cell, alive or dead. Edits are accepted only while the
    /// simulation is not running; a running session ignores them.
    pub fn set_cell(&mut self, r: usize, c: usize, alive: bool)
        requires
            old(self).wf(),
            r < old(self).side(),
            c < old(self).side(),
        ensures
            final(self).wf(),
            old(self).run_state() is Running ==> *final(self) == *old(self),
            !(old(self).run_state() is Running) ==> {
                &&& final(self).grid_view()[r as int][c as int] == alive
                &&& forall|i: int, j: int|
                    in_grid(old(self).side(), i, j) && !(i == r && j == c)
                        ==> final(self).grid_view()[i][j] == old(self).grid_view()[i][j]
                &&& final(self).run_state() == old(self).run_state()
                &&& final(self).side() == old(self).side()
                &&& final(self).chunk_size() == old(self).chunk_size()
                &&& final(self).chunk_side() == old(self).chunk_side()
                &&& final(self).snapshot_view() == old(self).snapshot_view()
                &&& final(self).chunks_view() == old(self).chunks_view()
                &&& final(self).generation() == old(self).generation()
            },
    {
        if !(self.state == RunState::Running) {
            self.grid.set(r, c, alive);
        }
    }

    /// Reset every cell to dead. Accepted only while idle; otherwise a
    /// no-op, mirroring the clear control being hidden during a run.
    pub fn clear_grid(&mut self)
        requires
            old(self).wf(),
        ensures
            final(self).wf(),
            !(old(self).run_state() is Idle) ==> *final(self) == *old(self),
            old(self).run_state() is Idle ==> {
                &&& forall|i: int, j: int|
                    in_grid(old(self).side(), i, j) ==> !final(self).grid_view()[i][j]
                &&& final(self).run_state() == old(self).run_state()
                &&& final(self).side() == old(self).side()
                &&& final(self).chunk_size() == old(self).chunk_size()
                &&& final(self).chunk_side() == old(self).chunk_side()
                &&& final(self).snapshot_view() == old(self).snapshot_view()
                &&& final(self).chunks_view() == old(self).chunks_view()
                &&& final(self).generation() == old(self).generation()
            },
    {
        if self.state == RunState::Idle {
            self.grid = Grid::new(self.n);
        }
    }

    /// Switch the cells of the demonstration start pattern alive; every
    /// other cell keeps its value. An edit, so accepted only while the
    /// simulation is not running.
    #[verifier::rlimit(100)]
    pub fn load_start_generation(&mut self)
        requires
            old(self).wf(),
            old(self).side() > 70,
        ensures
            final(self).wf(),
            old(self).run_state() is Running ==> *final(self) == *old(self),
            !(old(self).run_state() is Running) ==> {
                &&& forall|r: int, c: int|
                    in_grid(old(self).side(), r, c) ==> final(self).grid_view()[r][c] == (old(
                        self,
                    ).grid_view()[r][c] || start_pattern(r, c))
                &&& final(self).run_state() == old(self).run_state()
                &&& final(self).side() == old(self).side()
                &&& final(self).chunk_size() == old(self).chunk_size()
                &&& final(self).chunk_side() == old(self).chunk_side()
                &&& final(self).snapshot_view() == old(self).snapshot_view()
                &&& final(self).chunks_view() == old(self).chunks_view()
                &&& final(self).generation() == old(self).generation()
            },
    {
        if self.state == RunState::Running {
            return ;
        }
        // glider gun
        self.grid.set(44, 48, true);
        self.grid.set(45, 46, true);
        self.grid.set(45, 48, true);
        self.grid.set(46, 36, true);
        self.grid.set(46, 37, true);
        self.grid.set(46, 44, true);
        self.grid.set(46, 45, true);
        self.grid.set(46, 58, true);
        self.grid.set(46, 59, true);
        self.grid.set(47, 35, true);
        self.grid.set(47, 39, true);
        self.grid.set(47, 44, true);
        self.grid.set(47, 45, true);
        self.grid.set(47, 58, true);
        self.grid.set(47, 59, true);
        self.grid.set(48, 24, true);
        self.grid.set(48, 25, true);
        self.grid.set(48, 34, true);
        self.grid.set(48, 40, true);
        self.grid.set(48, 44, true);
        self.grid.set(48, 45, true);
        self.grid.set(49, 24, true);
        self.grid.set(49, 25, true);
        self.grid.set(49, 34, true);
        self.grid.set(49, 38, true);
        self.grid.set(49, 40, true);
        self.grid.set(49, 41, true);
        self.grid.set(49, 46, true);
        self.grid.set(49, 48, true);
        self.grid.set(50, 34, true);
        self.grid.set(50, 40, true);
        self.grid.set(50, 48, true);
        self.grid.set(51, 35, true);
        self.grid.set(51, 39, true);
        self.grid.set(52, 36, true);
        self.grid.set(52, 37, true);
        // lightweight spaceship
        self.grid.set(67, 51, true);
        self.grid.set(67, 52, true);
        self.grid.set(68, 50, true);
        self.grid.set(68, 51, true);
        self.grid.set(68, 53, true);
        self.grid.set(68, 54, true);
        self.grid.set(69, 51, true);
        self.grid.set(69, 52, true);
        self.grid.set(69, 53, true);
        self.grid.set(69, 54, true);
        self.grid.set(70, 52, true);
        self.grid.set(70, 53, true);
    }

    /// Start a run from the idle state: snapshot the grid, bootstrap the
    /// chunk matrix from it, and begin running. In any other state this is
    /// a no-op.
    pub fn start_run(&mut self)
        requires
            old(self).wf(),
        ensures
            final(self).wf(),
            !(old(self).run_state() is Idle) ==> *final(self) == *old(self),
            old(self).run_state() is Idle ==> {
                &&& final(self).run_state() is Running
                &&& final(self).grid_view() == old(self).grid_view()
                &&& final(self).snapshot_view() == old(self).grid_view()
                &&& forall|a: int, b: int|
                    in_grid(old(self).chunk_side(), a, b) ==> final(self).chunks_view()[a][b]
                        == chunk_has_live(old(self).grid_view(), old(self).chunk_size(), a, b)
                &&& final(self).side() == old(self).side()
                &&& final(self).chunk_size() == old(self).chunk_size()
                &&& final(self).chunk_side() == old(self).chunk_side()
                &&& final(self).generation() == old(self).generation()
            },
    {
        if self.state == RunState::Idle {
            self.snapshot = self.grid.duplicate();
            self.chunks = bruteforce_changes(&self.grid, self.cs, self.nc);
            self.state = RunState::Running;
            proof {
                lemma_bootstrap_sound(
                    self.grid@,
                    self.chunks@,
                    self.n as int,
                    self.cs as int,
                    self.nc as int,
                );
            }
        }
    }

    /// Halt ticking. A no-op unless the session is running.
    pub fn pause_run(&mut self)
        requires
            old(self).wf(),
        ensures
            final(self).wf(),
            !(old(self).run_state() is Running) ==> *final(self) == *old(self),
            old(self).run_state() is Running ==> {
                &&& final(self).run_state() is Paused
                &&& final(self).grid_view() == old(self).grid_view()
                &&& final(self).snapshot_view() == old(self).snapshot_view()
                &&& final(self).chunks_view() == old(self).chunks_view()
                &&& final(self).side() == old(self).side()
                &&& final(self).chunk_size() == old(self).chunk_size()
                &&& final(self).chunk_side() == old(self).chunk_side()
                &&& final(self).generation() == old(self).generation()
            },
    {
        if self.state == RunState::Running {
            self.state = RunState::Paused;
        }
    }

    /// Resume ticking from a pause. The chunk matrix is rebuilt from the
    /// grid, since incremental tracking cannot be trusted across a halt.
    /// A no-op unless the session is paused.
    pub fn resume_run(&mut self)
        requires
            old(self).wf(),
        ensures
            final(self).wf(),
            !(old(self).run_state() is Paused) ==> *final(self) == *old(self),
            old(self).run_state() is Paused ==> {
                &&& final(self).run_state() is Running
                &&& final(self).grid_view() == old(self).grid_view()
                &&& final(self).snapshot_view() == old(self).snapshot_view()
                &&& forall|a: int, b: int|
                    in_grid(old(self).chunk_side(), a, b) ==> final(self).chunks_view()[a][b]
                        == chunk_has_live(old(self).grid_view(), old(self).chunk_size(), a, b)
                &&& final(self).side() == old(self).side()
                &&& final(self).chunk_size() == old(self).chunk_size()
                &&& final(self).chunk_side() == old(self).chunk_side()
                &&& final(self).generation() == old(self).generation()
            },
    {
        if self.state == RunState::Paused {
            self.chunks = bruteforce_changes(&self.grid, self.cs, self.nc);
            self.state = RunState::Running;
            proof {
                lemma_bootstrap_sound(
                    self.grid@,
                    self.chunks@,
                    self.n as int,
                    self.cs as int,
                    self.nc as int,
                );
            }
        }
    }

    /// End the current run and return to idle. With `keep_grid` false the
    /// grid is restored, cell for cell, from the snapshot taken when the
    /// run started; with `keep_grid` true the current grid is kept. Either
    /// way the generation counter resets and the chunk matrix is discarded
    /// (reset to all-marked). A no-op while idle.
    pub fn abort_run(&mut self, keep_grid: bool)
        requires
            old(self).wf(),
        ensures
            final(self).wf(),
            old(self).run_state() is Idle ==> *final(self) == *old(self),
            !(old(self).run_state() is Idle) ==> {
                &&& final(self).run_state() is Idle
                &&& final(self).generation() == 0
                &&& (!keep_grid ==> final(self).grid_view() == old(self).snapshot_view())
                &&& (keep_grid ==> final(self).grid_view() == old(self).grid_view())
                &&& final(self).snapshot_view() == old(self).snapshot_view()
                &&& forall|a: int, b: int|
                    in_grid(old(self).chunk_side(), a, b) ==> final(self).chunks_view()[a][b]
                &&& final(self).side() == old(self).side()
                &&& final(self).chunk_size() == old(self).chunk_size()
                &&& final(self).chunk_side() == old(self).chunk_side()
            },
    {
        if !(self.state == RunState::Idle) {
            if !keep_grid {
                self.grid = self.snapshot.duplicate();
            }
            self.chunks = ChunkGrid::new_filled(self.nc, true);
            self.generation = 0;
            self.state = RunState::Idle;
        }
    }

    /// One frame of the driver loop: when the session is running and the
    /// caller reports that the tick cooldown has elapsed, advance the grid
    /// by one generation - bit-for-bit what a naive full-grid application
    /// of Conway's rule produces - and record per chunk whether any of its
    /// cells changed. Otherwise nothing happens.
    pub fn iteration(&mut self, cooldown_elapsed: bool)
        requires
            old(self).wf(),
            old(self).generation() < u64::MAX,
        ensures
            final(self).wf(),
            !(old(self).run_state() is Running && cooldown_elapsed) ==> *final(self) == *old(
                self,
            ),
            old(self).run_state() is Running && cooldown_elapsed ==> {
                &&& is_next_generation(
                    old(self).grid_view(),
                    final(self).grid_view(),
                    old(self).side(),
                )
                &&& forall|a: int, b: int|
                    in_grid(old(self).chunk_side(), a, b) ==> final(self).chunks_view()[a][b]
                        == chunk_differs(
                        old(self).grid_view(),
                        final(self).grid_view(),
                        old(self).chunk_size(),
                        a,
                        b,
                    )
                &&& final(self).generation() == old(self).generation() + 1
                &&& final(self).run_state() is Running
                &&& final(self).snapshot_view() == old(self).snapshot_view()
                &&& final(self).side() == old(self).side()
                &&& final(self).chunk_size() == old(self).chunk_size()
                &&& final(self).chunk_side() == old(self).chunk_side()
            },
    {
        if cooldown_elapsed && self.state == RunState::Running {
            let (next_grid, next_chunks) = iterate_generation(&self.grid, &self.chunks, self.cs);
            proof {
                lemma_step_preserves_soundness(
                    self.grid@,
                    next_grid@,
                    next_chunks@,
                    self.n as int,
                    self.cs as int,
                    self.nc as int,
                );
            }
            self.grid = next_grid;
            self.chunks = next_chunks;
            self.generation = self.generation + 1;
        }
    }
}

} // verus!
