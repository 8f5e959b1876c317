//! The one-time full-grid scan that (re)builds the chunk change matrix when
//! incremental tracking cannot be trusted: at the start of a run, or after
//! the grid was edited while the simulation was not ticking. Each chunk is
//! marked exactly when it holds at least one live cell, which conservatively
//! over-approximates every change the next tick could have to look at.
//! Independent chunks are scanned in parallel.

use vstd::prelude::*;
use rayon::iter::IndexedParallelIterator;
use rayon::iter::IntoParallelRefMutIterator;
use rayon::iter::ParallelIterator;
use crate::grid::Grid;
use crate::chunks::ChunkGrid;
use crate::model::{
    in_grid, in_chunk, chunk_has_live, window_quiet, stable_where_quiet, neighbor_count, next_cell,
    lemma_self_chunk, lemma_chunk_row_bound,
};

verus! {

/// Does chunk (cr, cc) of `g` hold at least one live cell?
#[verifier::loop_isolation(false)]
pub fn chunk_has_live_cell(g: &Grid, cs: usize, cr: usize, cc: usize) -> (found: bool)
    requires
        g.wf(),
        cs > 0,
        (cr as int + 1) * cs <= g.side(),
        (cc as int + 1) * cs <= g.side(),
    ensures
        found == chunk_has_live(g@, cs as int, cr as int, cc as int),
{
    let ghost csi: int = cs as int;
    let ghost cri: int = cr as int;
    let ghost cci: int = cc as int;
    let ghost n: int = g.side();
    let n_exec = g.len();  // witnesses that the side length fits in usize
    proof {
        assert((cri + 1) * csi == cri * csi + csi) by (nonlinear_arith);
        assert((cci + 1) * csi == cci * csi + csi) by (nonlinear_arith);
        assert(cri * csi >= 0) by (nonlinear_arith)
            requires
                cri >= 0 && csi >= 0,
        ;
        assert(cci * csi >= 0) by (nonlinear_arith)
            requires
                cci >= 0 && csi >= 0,
        ;
    }
    let r_lo = cr * cs;
    let r_hi = r_lo + cs;
    let c_lo = cc * cs;
    let c_hi = c_lo + cs;
    let mut r = r_lo;
    while r < r_hi
        invariant
            r_lo <= r <= r_hi,
            forall|i: int, j: int|
                #![trigger in_chunk(csi, cri, cci, i, j)]
                in_chunk(csi, cri, cci, i, j) && i < r ==> !g@[i][j],
        decreases r_hi - r,
    {
        let mut c = c_lo;
        while c < c_hi
            invariant
                c_lo <= c <= c_hi,
                r_lo <= r < r_hi,
                forall|i: int, j: int|
                    #![trigger in_chunk(csi, cri, cci, i, j)]
                    in_chunk(csi, cri, cci, i, j) && (i < r || (i == r && j < c)) ==> !g@[i][j],
            decreases c_hi - c,
        {
            if g.get(r, c) {
                proof {
                    assert(in_chunk(csi, cri, cci, r as int, c as int));
                }
                return true;
            }
            proof {
                assert(in_chunk(csi, cri, cci, r as int, c as int));
            }
            c = c + 1;
        }
        r = r + 1;
    }
    false
}

/// Relies on rayon's `par_iter_mut`, `enumerate` and `for_each`: the closure
/// runs exactly once for each element of the vector, paired with that
/// element's index, and afterwards each element holds what the closure wrote
/// into it. The verdict written is computed by the verified
/// `chunk_has_live_cell`.
#[verifier::external_body]
fn mark_live_chunks_parallel(g: &Grid, cs: usize, nc: usize) -> (flags: Vec<Vec<bool>>)
    requires
        g.wf(),
        cs > 0,
        nc as int * cs == g.side(),
    ensures
        flags@.len() == nc,
        forall|a: int| 0 <= a < nc ==> (#[trigger] flags@[a])@.len() == nc,
        forall|a: int, b: int|
            #![trigger flags@[a]@[b]]
            0 <= a < nc && 0 <= b < nc ==> flags@[a]@[b] == chunk_has_live(g@, cs as int, a, b),
{
    let mut flags = vec![vec![false; nc]; nc];
    flags.par_iter_mut().enumerate().for_each(|(a, row)| {
        row.par_iter_mut().enumerate().for_each(|(b, flag)| {
            *flag = chunk_has_live_cell(g, cs, a, b);
        })
    });
    flags
}

/// (Re)build the whole chunk matrix from the grid alone: entry (a, b) is
/// set exactly when chunk (a, b) holds at least one live cell.
pub fn bruteforce_changes(g: &Grid, cs: usize, nc: usize) -> (cg: ChunkGrid)
    requires
        g.wf(),
        cs > 0,
        nc as int * cs == g.side(),
    ensures
        cg.wf(),
        cg.side() == nc,
        forall|a: int, b: int|
            in_grid(nc as int, a, b) ==> cg@[a][b] == chunk_has_live(g@, cs as int, a, b),
{
    let flags = mark_live_chunks_parallel(g, cs, nc);
    ChunkGrid::from_rows(flags)
}

/// Bootstrap correctness: a chunk matrix that marks every chunk holding a
/// live cell is sound. A cell that sees only unmarked chunks through its
/// 3x3 window is dead and has no live neighbor, so Conway's rule keeps it
/// dead: the first tick after a bootstrap cannot skip anything it had to
/// evaluate.
pub proof fn lemma_bootstrap_sound(
    g: Seq<Seq<bool>>,
    cg: Seq<Seq<bool>>,
    n: int,
    cs: int,
    nc: int,
)
    requires
        cs > 0,
        n == nc * cs,
        forall|a: int, b: int|
            in_grid(nc, a, b) ==> #[trigger] cg[a][b] == chunk_has_live(g, cs, a, b),
    ensures
        stable_where_quiet(g, cg, n, cs),
{
    assert forall|r: int, c: int|
        in_grid(n, r, c) && #[trigger] window_quiet(cg, n, cs, r, c) implies next_cell(g, n, r, c)
        == g[r][c] by {
        assert forall|x: int, y: int|
            r - 1 <= x <= r + 1 && c - 1 <= y <= c + 1 && in_grid(n, x, y) implies !g[x][y] by {
            lemma_self_chunk(x, cs);
            lemma_self_chunk(y, cs);
            lemma_chunk_row_bound(x, cs, nc);
            lemma_chunk_row_bound(y, cs, nc);
            assert(in_chunk(cs, x / cs, y / cs, x, y));
            assert(!cg[x / cs][y / cs]);
            if g[x][y] {
                assert(chunk_has_live(g, cs, x / cs, y / cs));
                assert(false);
            }
        }
        assert(!g[r][c]);
        assert(neighbor_count(g, n, r, c) == 0);
    }
}

} // verus!
