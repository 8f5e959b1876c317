//! Mathematical model of the simulation: cell grids as sequences of rows,
//! Conway's rule, chunk geometry, and the soundness notion that ties a grid
//! to its chunk change-flags.

use vstd::prelude::*;
use vstd::arithmetic::div_mod::{
    lemma_fundamental_div_mod,
    lemma_fundamental_div_mod_converse,
    lemma_mod_bound,
};

verus! {

/// A square matrix of booleans of side `n`, as a sequence of rows.
pub open spec fn matrix_wf(g: Seq<Seq<bool>>, n: int) -> bool {
    &&& g.len() == n
    &&& forall|i: int| 0 <= i < n ==> (#[trigger] g[i]).len() == n
}

/// Position (r, c) lies inside a grid of side `n`.
pub open spec fn in_grid(n: int, r: int, c: int) -> bool {
    0 <= r < n && 0 <= c < n
}

/// 1 if (r, c) is inside the grid and alive, else 0. Positions outside the
/// grid are non-existent, so they contribute nothing to a neighbor count.
pub open spec fn live_at(g: Seq<Seq<bool>>, n: int, r: int, c: int) -> int {
    if in_grid(n, r, c) && g[r][c] {
        1
    } else {
        0
    }
}

/// Number of live cells among the up-to-8 Moore neighbors of (r, c),
/// with the search window clamped to the grid.
pub open spec fn neighbor_count(g: Seq<Seq<bool>>, n: int, r: int, c: int) -> int {
    live_at(g, n, r - 1, c - 1) + live_at(g, n, r - 1, c) + live_at(g, n, r - 1, c + 1)
        + live_at(g, n, r, c - 1) + live_at(g, n, r, c + 1) + live_at(g, n, r + 1, c - 1) + live_at(
        g,
        n,
        r + 1,
        c,
    ) + live_at(g, n, r + 1, c + 1)
}

/// Conway's rule for one cell: a live cell survives with 2 or 3 live
/// neighbors, a dead cell is born with exactly 3.
pub open spec fn next_cell(g: Seq<Seq<bool>>, n: int, r: int, c: int) -> bool {
    if g[r][c] {
        neighbor_count(g, n, r, c) == 2 || neighbor_count(g, n, r, c) == 3
    } else {
        neighbor_count(g, n, r, c) == 3
    }
}

/// `g2` is the naive, full-grid application of Conway's rule to `g`.
pub open spec fn is_next_generation(g: Seq<Seq<bool>>, g2: Seq<Seq<bool>>, n: int) -> bool {
    forall|r: int, c: int| in_grid(n, r, c) ==> g2[r][c] == next_cell(g, n, r, c)
}

/// Cell (r, c) belongs to chunk (cr, cc) when chunks have side `cs`.
pub open spec fn in_chunk(cs: int, cr: int, cc: int, r: int, c: int) -> bool {
    cr * cs <= r < (cr + 1) * cs && cc * cs <= c < (cc + 1) * cs
}

/// Chunk (cr, cc) holds at least one live cell of `g`.
pub open spec fn chunk_has_live(g: Seq<Seq<bool>>, cs: int, cr: int, cc: int) -> bool {
    exists|r: int, c: int| #[trigger] in_chunk(cs, cr, cc, r, c) && g[r][c]
}

/// Some cell of chunk (cr, cc) differs between `g` and `g2`.
pub open spec fn chunk_differs(
    g: Seq<Seq<bool>>,
    g2: Seq<Seq<bool>>,
    cs: int,
    cr: int,
    cc: int,
) -> bool {
    exists|r: int, c: int| #[trigger] in_chunk(cs, cr, cc, r, c) && g[r][c] != g2[r][c]
}

/// At least one of the up-to-8 chunk-neighbors of chunk (cr, cc) is marked
/// as changed in `cg` (the chunk matrix has side `nc`).
pub open spec fn any_neighbor_marked(cg: Seq<Seq<bool>>, nc: int, cr: int, cc: int) -> bool {
    exists|i: int, j: int|
        #![trigger cg[i][j]]
        cr - 1 <= i <= cr + 1 && cc - 1 <= j <= cc + 1 && !(i == cr && j == cc) && 0 <= i < nc && 0
            <= j < nc && cg[i][j]
}

/// Every chunk within the 3x3 chunk window around each in-grid cell of the
/// 3x3 cell window of (r, c) is unmarked in `cg`: no change was recorded
/// anywhere Conway's rule can see from (r, c).
pub open spec fn window_quiet(cg: Seq<Seq<bool>>, n: int, cs: int, r: int, c: int) -> bool {
    forall|i: int, j: int|
        r - 1 <= i <= r + 1 && c - 1 <= j <= c + 1 && #[trigger] in_grid(n, i, j) ==> !cg[i / cs][j
            / cs]
}

/// The change-flags `cg` soundly over-approximate activity in `g`: any cell
/// that sees only unmarked chunks is stable under Conway's rule. This is the
/// invariant that lets a tick skip quiet chunks without missing an update.
pub open spec fn stable_where_quiet(g: Seq<Seq<bool>>, cg: Seq<Seq<bool>>, n: int, cs: int) -> bool {
    forall|r: int, c: int|
        in_grid(n, r, c) && #[trigger] window_quiet(cg, n, cs, r, c) ==> next_cell(g, n, r, c)
            == g[r][c]
}

/// Number of `true` entries in one row.
pub open spec fn row_live_count(row: Seq<bool>) -> int
    decreases row.len(),
{
    if row.len() <= 0 {
        0
    } else {
        row_live_count(row.drop_last()) + (if row.last() {
            1int
        } else {
            0int
        })
    }
}

/// Number of live cells in the whole grid.
pub open spec fn live_count(g: Seq<Seq<bool>>) -> int
    decreases g.len(),
{
    if g.len() <= 0 {
        0
    } else {
        live_count(g.drop_last()) + row_live_count(g.last())
    }
}

/// Extending a row prefix by one entry adds that entry's contribution.
pub proof fn lemma_row_live_count_step(row: Seq<bool>, j: int)
    requires
        0 <= j < row.len(),
    ensures
        row_live_count(row.take(j + 1)) == row_live_count(row.take(j)) + (if row[j] {
            1int
        } else {
            0int
        }),
{
    assert(row.take(j + 1).drop_last() =~= row.take(j));
    assert(row.take(j + 1).last() == row[j]);
}

/// Extending a grid prefix by one row adds that row's count.
pub proof fn lemma_live_count_step(g: Seq<Seq<bool>>, i: int)
    requires
        0 <= i < g.len(),
    ensures
        live_count(g.take(i + 1)) == live_count(g.take(i)) + row_live_count(g[i]),
{
    assert(g.take(i + 1).drop_last() =~= g.take(i));
    assert(g.take(i + 1).last() == g[i]);
}

/// A position between the bounds of chunk row `cr` divides down to `cr`.
pub proof fn lemma_in_chunk_div(x: int, cs: int, cr: int)
    requires
        cs > 0,
        cr * cs <= x < (cr + 1) * cs,
    ensures
        x / cs == cr,
{
    assert((cr + 1) * cs == cr * cs + cs) by (nonlinear_arith);
    lemma_fundamental_div_mod_converse(x, cs, cr, x - cr * cs);
}

/// Every nonnegative position lies between the bounds of chunk row `x / cs`.
pub proof fn lemma_self_chunk(x: int, cs: int)
    requires
        cs > 0,
        0 <= x,
    ensures
        0 <= x / cs,
        (x / cs) * cs <= x < (x / cs + 1) * cs,
{
    lemma_fundamental_div_mod(x, cs);
    lemma_mod_bound(x, cs);
    assert(0 <= x / cs && (x / cs) * cs <= x < (x / cs + 1) * cs) by (nonlinear_arith)
        requires
            cs > 0,
            0 <= x,
            x == cs * (x / cs) + x % cs,
            0 <= x % cs < cs,
    ;
}

/// Positions below `nc * cs` live in chunk rows below `nc`.
pub proof fn lemma_chunk_row_bound(x: int, cs: int, nc: int)
    requires
        cs > 0,
        0 <= x < nc * cs,
    ensures
        0 <= x / cs < nc,
{
    lemma_self_chunk(x, cs);
    assert(x / cs < nc) by (nonlinear_arith)
        requires
            cs > 0,
            (x / cs) * cs <= x < nc * cs,
    ;
}

/// A position one step away from chunk row `cr` stays within the adjacent
/// chunk rows `cr - 1 ..= cr + 1`.
pub proof fn lemma_neighbor_chunk(x: int, y: int, cs: int, cr: int)
    requires
        cs > 0,
        cr * cs <= x < (cr + 1) * cs,
        0 <= y,
        x - 1 <= y <= x + 1,
    ensures
        cr - 1 <= y / cs <= cr + 1,
{
    assert((cr + 1) * cs == cr * cs + cs) by (nonlinear_arith);
    assert((cr - 1) * cs == cr * cs - cs) by (nonlinear_arith);
    assert((cr + 2) * cs == cr * cs + 2 * cs) by (nonlinear_arith);
    if y < cr * cs {
        lemma_in_chunk_div(y, cs, cr - 1);
    } else if y < (cr + 1) * cs {
        lemma_in_chunk_div(y, cs, cr);
    } else {
        lemma_in_chunk_div(y, cs, cr + 1);
    }
}

} // verus!
