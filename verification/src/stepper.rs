//! One tick of the simulation: apply Conway's rule to the cells selected by
//! the planner and record, per chunk, whether anything changed. The result
//! is proved bit-for-bit identical to a naive full-grid application of the
//! rule, which is the correctness invariant of the whole chunk optimization.

use vstd::prelude::*;
use crate::grid::Grid;
use crate::chunks::{ChunkGrid, ScanAction};
use crate::model::{
    in_grid, in_chunk, next_cell, neighbor_count, is_next_generation, chunk_differs,
    any_neighbor_marked, window_quiet, stable_where_quiet, lemma_in_chunk_div, lemma_self_chunk,
    lemma_chunk_row_bound, lemma_neighbor_chunk,
};

verus! {

/// The outer cell ring of chunk (cr, cc): what a border-only scan evaluates.
pub open spec fn on_chunk_border(cs: int, cr: int, cc: int, r: int, c: int) -> bool {
    in_chunk(cs, cr, cc, r, c) && (r == cr * cs || r == (cr + 1) * cs - 1 || c == cc * cs || c == (
    cc + 1) * cs - 1)
}

/// The cell subset of chunk (cr, cc) that one scan evaluates: the whole
/// chunk for a full scan, only the outer ring for a border-only scan.
pub open spec fn scanned(cs: int, cr: int, cc: int, border_only: bool, r: int, c: int) -> bool {
    if border_only {
        on_chunk_border(cs, cr, cc, r, c)
    } else {
        in_chunk(cs, cr, cc, r, c)
    }
}

/// Evaluate Conway's rule for one cell of `g`, writing the verdict into
/// `out` and reporting whether the cell's value flips.
fn eval_cell(g: &Grid, out: &mut Grid, r: usize, c: usize) -> (changed: bool)
    requires
        g.wf(),
        old(out).wf(),
        old(out).side() == g.side(),
        in_grid(g.side(), r as int, c as int),
    ensures
        final(out).wf(),
        final(out).side() == g.side(),
        final(out)@[r as int][c as int] == next_cell(g@, g.side(), r as int, c as int),
        forall|i: int, j: int|
            #![trigger final(out)@[i][j]]
            in_grid(g.side(), i, j) && !(i == r && j == c) ==> final(out)@[i][j] == old(out)@[i][j],
        changed == (next_cell(g@, g.side(), r as int, c as int) != g@[r as int][c as int]),
{
    let neighbors = g.get_neighbors(r, c);
    let cur = g.get(r, c);
    let next = if cur {
        neighbors == 2 || neighbors == 3
    } else {
        neighbors == 3
    };
    out.set(r, c, next);
    next != cur
}

/// Evaluate Conway's rule on the selected cells of row `r` of chunk
/// (cr, cc), writing verdicts into `out` and leaving every other cell of
/// `out` untouched. Reports whether any evaluated cell flips relative to `g`.
#[verifier::loop_isolation(false)]
fn scan_chunk_row(
    g: &Grid,
    out: &mut Grid,
    cs: usize,
    cr: usize,
    cc: usize,
    border_only: bool,
    r: usize,
) -> (changed: bool)
    requires
        g.wf(),
        old(out).wf(),
        old(out).side() == g.side(),
        cs > 0,
        (cr as int + 1) * cs <= g.side(),
        (cc as int + 1) * cs <= g.side(),
        cr as int * cs <= r < (cr as int + 1) * cs,
    ensures
        final(out).wf(),
        final(out).side() == g.side(),
        forall|j: int|
            #[trigger] scanned(cs as int, cr as int, cc as int, border_only, r as int, j)
                ==> final(out)@[r as int][j] == next_cell(g@, g.side(), r as int, j),
        forall|i: int, j: int|
            #![trigger final(out)@[i][j]]
            in_grid(g.side(), i, j) && !(i == r && scanned(
                cs as int,
                cr as int,
                cc as int,
                border_only,
                i,
                j,
            )) ==> final(out)@[i][j] == old(out)@[i][j],
        changed == (exists|j: int|
            #[trigger] scanned(cs as int, cr as int, cc as int, border_only, r as int, j)
                && next_cell(g@, g.side(), r as int, j) != g@[r as int][j]),
{
    let ghost csi: int = cs as int;
    let ghost cri: int = cr as int;
    let ghost cci: int = cc as int;
    let ghost n: int = g.side();
    let n_exec = g.len();  // witnesses that the side length fits in usize
    proof {
        assert((cri + 1) * csi == cri * csi + csi) by (nonlinear_arith);
        assert((cci + 1) * csi == cci * csi + csi) by (nonlinear_arith);
        assert(cri * csi >= 0) by (nonlinear_arith)
            requires
                cri >= 0 && csi >= 0,
        ;
        assert(cci * csi >= 0) by (nonlinear_arith)
            requires
                cci >= 0 && csi >= 0,
        ;
    }
    let r_lo = cr * cs;
    let r_hi = r_lo + cs;
    let c_lo = cc * cs;
    let c_hi = c_lo + cs;
    let mut changed = false;
    let mut c = c_lo;
    while c < c_hi
        invariant
            c_lo <= c <= c_hi,
            out.wf(),
            out.side() == n,
            forall|j: int|
                #[trigger] scanned(csi, cri, cci, border_only, r as int, j) && j < c
                    ==> out@[r as int][j] == next_cell(g@, n, r as int, j),
            forall|i: int, j: int|
                in_grid(n, i, j) && !(i == r && j < c && scanned(csi, cri, cci, border_only, i, j))
                    ==> out@[i][j] == old(out)@[i][j],
            changed == (exists|j: int|
                #[trigger] scanned(csi, cri, cci, border_only, r as int, j) && j < c && next_cell(
                    g@,
                    n,
                    r as int,
                    j,
                ) != g@[r as int][j]),
        decreases c_hi - c,
    {
        if !border_only || r == r_lo || r == r_hi - 1 || c == c_lo || c == c_hi - 1 {
            proof {
                assert(scanned(csi, cri, cci, border_only, r as int, c as int));
            }
            let ch = eval_cell(g, out, r, c);
            changed = changed || ch;
        } else {
            proof {
                assert(!scanned(csi, cri, cci, border_only, r as int, c as int));
            }
        }
        c = c + 1;
    }
    changed
}

/// Evaluate Conway's rule on the selected cells of chunk (cr, cc), writing
/// verdicts into `out` and leaving every other cell of `out` untouched.
/// Reports whether any evaluated cell flips relative to `g`.
#[verifier::loop_isolation(false)]
fn scan_chunk(g: &Grid, out: &mut Grid, cs: usize, cr: usize, cc: usize, border_only: bool) -> (changed:
    bool)
    requires
        g.wf(),
        old(out).wf(),
        old(out).side() == g.side(),
        cs > 0,
        (cr as int + 1) * cs <= g.side(),
        (cc as int + 1) * cs <= g.side(),
    ensures
        final(out).wf(),
        final(out).side() == g.side(),
        forall|i: int, j: int|
            #[trigger] scanned(cs as int, cr as int, cc as int, border_only, i, j)
                ==> final(out)@[i][j] == next_cell(g@, g.side(), i, j),
        forall|i: int, j: int|
            in_grid(g.side(), i, j) && !scanned(cs as int, cr as int, cc as int, border_only, i, j)
                ==> final(out)@[i][j] == old(out)@[i][j],
        changed == (exists|i: int, j: int|
            #![trigger scanned(cs as int, cr as int, cc as int, border_only, i, j)]
            scanned(cs as int, cr as int, cc as int, border_only, i, j) && next_cell(
                g@,
                g.side(),
                i,
                j,
            ) != g@[i][j]),
{
    let ghost csi: int = cs as int;
    let ghost cri: int = cr as int;
    let ghost cci: int = cc as int;
    let ghost n: int = g.side();
    let n_exec = g.len();  // witnesses that the side length fits in usize
    proof {
        assert((cri + 1) * csi == cri * csi + csi) by (nonlinear_arith);
        assert((cci + 1) * csi == cci * csi + csi) by (nonlinear_arith);
        assert(cri * csi >= 0) by (nonlinear_arith)
            requires
                cri >= 0 && csi >= 0,
        ;
        assert(cci * csi >= 0) by (nonlinear_arith)
            requires
                cci >= 0 && csi >= 0,
        ;
    }
    let r_lo = cr * cs;
    let r_hi = r_lo + cs;
    let mut changed = false;
    let mut r = r_lo;
    while r < r_hi
        invariant
            r_lo <= r <= r_hi,
            out.wf(),
            out.side() == n,
            forall|i: int, j: int|
                #[trigger] scanned(csi, cri, cci, border_only, i, j) && i < r ==> out@[i][j]
                    == next_cell(g@, n, i, j),
            forall|i: int, j: int|
                in_grid(n, i, j) && !(i < r && scanned(csi, cri, cci, border_only, i, j))
                    ==> out@[i][j] == old(out)@[i][j],
            changed == (exists|i: int, j: int|
                #![trigger scanned(csi, cri, cci, border_only, i, j)]
                scanned(csi, cri, cci, border_only, i, j) && i < r && next_cell(g@, n, i, j)
                    != g@[i][j]),
        decreases r_hi - r,
    {
        let row_changed = scan_chunk_row(g, out, cs, cr, cc, border_only, r);
        changed = changed || row_changed;
        r = r + 1;
    }
    changed
}

/// Every cell of a chunk with a valid chunk index lies inside the grid.
pub proof fn lemma_chunk_cell_in_grid(cs: int, nc: int, n: int, cr: int, cc: int, r: int, c: int)
    requires
        cs > 0,
        n == nc * cs,
        in_grid(nc, cr, cc),
        in_chunk(cs, cr, cc, r, c),
    ensures
        in_grid(n, r, c),
{
    assert(0 <= cr * cs && (cr + 1) * cs <= nc * cs) by (nonlinear_arith)
        requires
            cs > 0 && 0 <= cr && cr + 1 <= nc,
    ;
    assert(0 <= cc * cs && (cc + 1) * cs <= nc * cs) by (nonlinear_arith)
        requires
            cs > 0 && 0 <= cc && cc + 1 <= nc,
    ;
}

/// A cell of a chunk that is unmarked and has no marked chunk-neighbor sees
/// only unmarked chunks through its 3x3 window.
pub proof fn lemma_skip_chunk_quiet(
    cg: Seq<Seq<bool>>,
    n: int,
    cs: int,
    nc: int,
    cr: int,
    cc: int,
    r: int,
    c: int,
)
    requires
        cs > 0,
        n == nc * cs,
        in_grid(nc, cr, cc),
        !cg[cr][cc],
        !any_neighbor_marked(cg, nc, cr, cc),
        in_chunk(cs, cr, cc, r, c),
    ensures
        window_quiet(cg, n, cs, r, c),
{
    assert forall|x: int, y: int|
        r - 1 <= x <= r + 1 && c - 1 <= y <= c + 1 && in_grid(n, x, y) implies !cg[x / cs][y
        / cs] by {
        lemma_neighbor_chunk(r, x, cs, cr);
        lemma_neighbor_chunk(c, y, cs, cc);
        lemma_chunk_row_bound(x, cs, nc);
        lemma_chunk_row_bound(y, cs, nc);
        if x / cs == cr && y / cs == cc {
            assert(!cg[x / cs][y / cs]);
        } else {
            // a marked chunk here would witness any_neighbor_marked
            assert(!cg[x / cs][y / cs]);
        }
    }
}

/// An interior (non-ring) cell of an unmarked chunk sees only that chunk
/// through its 3x3 window, marked or not around it.
pub proof fn lemma_border_interior_quiet(
    cg: Seq<Seq<bool>>,
    n: int,
    cs: int,
    nc: int,
    cr: int,
    cc: int,
    r: int,
    c: int,
)
    requires
        cs > 0,
        n == nc * cs,
        in_grid(nc, cr, cc),
        !cg[cr][cc],
        in_chunk(cs, cr, cc, r, c),
        !on_chunk_border(cs, cr, cc, r, c),
    ensures
        window_quiet(cg, n, cs, r, c),
{
    assert forall|x: int, y: int|
        r - 1 <= x <= r + 1 && c - 1 <= y <= c + 1 && in_grid(n, x, y) implies !cg[x / cs][y
        / cs] by {
        lemma_in_chunk_div(x, cs, cr);
        lemma_in_chunk_div(y, cs, cc);
    }
}

/// Some cell of chunk (cr, cc) flips under a naive application of
/// Conway's rule.
pub open spec fn chunk_activity(g: Seq<Seq<bool>>, n: int, cs: int, cr: int, cc: int) -> bool {
    exists|r: int, c: int| #[trigger] in_chunk(cs, cr, cc, r, c) && next_cell(g, n, r, c) != g[r][c]
}

/// Some border-ring cell of chunk (cr, cc) flips under a naive application
/// of Conway's rule.
pub open spec fn border_activity(g: Seq<Seq<bool>>, n: int, cs: int, cr: int, cc: int) -> bool {
    exists|r: int, c: int|
        #[trigger] on_chunk_border(cs, cr, cc, r, c) && next_cell(g, n, r, c) != g[r][c]
}

/// The cell value a planner-driven tick writes at (r, c): Conway's verdict
/// where the cell is evaluated (its chunk changed, or only a neighbor chunk
/// changed and the cell sits on the ring), the old value everywhere else.
pub open spec fn planned_cell(
    g: Seq<Seq<bool>>,
    cg: Seq<Seq<bool>>,
    n: int,
    cs: int,
    nc: int,
    r: int,
    c: int,
) -> bool {
    let a = r / cs;
    let b = c / cs;
    if cg[a][b] {
        next_cell(g, n, r, c)
    } else if any_neighbor_marked(cg, nc, a, b) && on_chunk_border(cs, a, b, r, c) {
        next_cell(g, n, r, c)
    } else {
        g[r][c]
    }
}

/// The flag a planner-driven tick writes for chunk (a, b): whether any
/// evaluated cell of the chunk flipped.
pub open spec fn planned_flag(
    g: Seq<Seq<bool>>,
    cg: Seq<Seq<bool>>,
    n: int,
    cs: int,
    nc: int,
    a: int,
    b: int,
) -> bool {
    if cg[a][b] {
        chunk_activity(g, n, cs, a, b)
    } else if any_neighbor_marked(cg, nc, a, b) {
        border_activity(g, n, cs, a, b)
    } else {
        cg[a][b]
    }
}

/// Chunk (a, b) comes before position (cr, cc) in row-major processing order.
pub open spec fn chunk_done(cr: int, cc: int, a: int, b: int) -> bool {
    a < cr || (a == cr && b < cc)
}

/// What a full scan of chunk (cr, cc) reports is exactly the chunk's
/// activity under the naive rule.
proof fn lemma_scan_exists_full(g: Seq<Seq<bool>>, n: int, cs: int, cr: int, cc: int)
    ensures
        (exists|i: int, j: int|
            #![trigger scanned(cs, cr, cc, false, i, j)]
            scanned(cs, cr, cc, false, i, j) && next_cell(g, n, i, j) != g[i][j]) == chunk_activity(
            g,
            n,
            cs,
            cr,
            cc,
        ),
{
    if exists|i: int, j: int|
        #![trigger scanned(cs, cr, cc, false, i, j)]
        scanned(cs, cr, cc, false, i, j) && next_cell(g, n, i, j) != g[i][j] {
        let (i0, j0) = choose|i: int, j: int|
            #![trigger scanned(cs, cr, cc, false, i, j)]
            scanned(cs, cr, cc, false, i, j) && next_cell(g, n, i, j) != g[i][j];
        assert(in_chunk(cs, cr, cc, i0, j0) && next_cell(g, n, i0, j0) != g[i0][j0]);
    }
    if chunk_activity(g, n, cs, cr, cc) {
        let (i0, j0) = choose|i: int, j: int|
            #[trigger] in_chunk(cs, cr, cc, i, j) && next_cell(g, n, i, j) != g[i][j];
        assert(scanned(cs, cr, cc, false, i0, j0) && next_cell(g, n, i0, j0) != g[i0][j0]);
    }
}

/// What a border-only scan of chunk (cr, cc) reports is exactly the ring's
/// activity under the naive rule.
proof fn lemma_scan_exists_border(g: Seq<Seq<bool>>, n: int, cs: int, cr: int, cc: int)
    ensures
        (exists|i: int, j: int|
            #![trigger scanned(cs, cr, cc, true, i, j)]
            scanned(cs, cr, cc, true, i, j) && next_cell(g, n, i, j) != g[i][j]) == border_activity(
            g,
            n,
            cs,
            cr,
            cc,
        ),
{
    if exists|i: int, j: int|
        #![trigger scanned(cs, cr, cc, true, i, j)]
        scanned(cs, cr, cc, true, i, j) && next_cell(g, n, i, j) != g[i][j] {
        let (i0, j0) = choose|i: int, j: int|
            #![trigger scanned(cs, cr, cc, true, i, j)]
            scanned(cs, cr, cc, true, i, j) && next_cell(g, n, i, j) != g[i][j];
        assert(on_chunk_border(cs, cr, cc, i0, j0) && next_cell(g, n, i0, j0) != g[i0][j0]);
    }
    if border_activity(g, n, cs, cr, cc) {
        let (i0, j0) = choose|i: int, j: int|
            #[trigger] on_chunk_border(cs, cr, cc, i, j) && next_cell(g, n, i, j) != g[i][j];
        assert(scanned(cs, cr, cc, true, i0, j0) && next_cell(g, n, i0, j0) != g[i0][j0]);
    }
}

/// Under a sound chunk matrix, the planner-driven tick writes exactly the
/// naive Conway verdict at every cell, and exactly the chunk's true
/// activity into every flag. This is the heart of the equivalence argument.
pub proof fn lemma_planned_matches_naive(
    g: Seq<Seq<bool>>,
    cg: Seq<Seq<bool>>,
    n: int,
    cs: int,
    nc: int,
)
    requires
        cs > 0,
        n == nc * cs,
        stable_where_quiet(g, cg, n, cs),
    ensures
        forall|r: int, c: int|
            in_grid(n, r, c) ==> #[trigger] planned_cell(g, cg, n, cs, nc, r, c) == next_cell(
                g,
                n,
                r,
                c,
            ),
        forall|a: int, b: int|
            in_grid(nc, a, b) ==> #[trigger] planned_flag(g, cg, n, cs, nc, a, b) == chunk_activity(
                g,
                n,
                cs,
                a,
                b,
            ),
{
    assert forall|r: int, c: int| in_grid(n, r, c) implies #[trigger] planned_cell(
        g,
        cg,
        n,
        cs,
        nc,
        r,
        c,
    ) == next_cell(g, n, r, c) by {
        lemma_self_chunk(r, cs);
        lemma_self_chunk(c, cs);
        lemma_chunk_row_bound(r, cs, nc);
        lemma_chunk_row_bound(c, cs, nc);
        let a = r / cs;
        let b = c / cs;
        assert(in_chunk(cs, a, b, r, c));
        if !cg[a][b] {
            if any_neighbor_marked(cg, nc, a, b) {
                if !on_chunk_border(cs, a, b, r, c) {
                    lemma_border_interior_quiet(cg, n, cs, nc, a, b, r, c);
                }
            } else {
                lemma_skip_chunk_quiet(cg, n, cs, nc, a, b, r, c);
            }
        }
    }
    assert forall|a: int, b: int| in_grid(nc, a, b) implies #[trigger] planned_flag(
        g,
        cg,
        n,
        cs,
        nc,
        a,
        b,
    ) == chunk_activity(g, n, cs, a, b) by {
        if cg[a][b] {
        } else if any_neighbor_marked(cg, nc, a, b) {
            // border activity and chunk activity agree: interior cells are stable
            if chunk_activity(g, n, cs, a, b) {
                let (r0, c0) = choose|r: int, c: int|
                    #[trigger] in_chunk(cs, a, b, r, c) && next_cell(g, n, r, c) != g[r][c];
                lemma_chunk_cell_in_grid(cs, nc, n, a, b, r0, c0);
                if !on_chunk_border(cs, a, b, r0, c0) {
                    lemma_border_interior_quiet(cg, n, cs, nc, a, b, r0, c0);
                    assert(false);
                }
                assert(border_activity(g, n, cs, a, b));
            }
            if border_activity(g, n, cs, a, b) {
                let (r0, c0) = choose|r: int, c: int|
                    #[trigger] on_chunk_border(cs, a, b, r, c) && next_cell(g, n, r, c) != g[r][c];
                assert(in_chunk(cs, a, b, r0, c0) && next_cell(g, n, r0, c0) != g[r0][c0]);
            }
        } else {
            // a fully quiet chunk has no activity at all
            if chunk_activity(g, n, cs, a, b) {
                let (r0, c0) = choose|r: int, c: int|
                    #[trigger] in_chunk(cs, a, b, r, c) && next_cell(g, n, r, c) != g[r][c];
                lemma_chunk_cell_in_grid(cs, nc, n, a, b, r0, c0);
                lemma_skip_chunk_quiet(cg, n, cs, nc, a, b, r0, c0);
                assert(false);
            }
        }
    }
}

/// A tick's own output is again a sound chunk matrix for the grid it came
/// with: wherever the new flags are quiet, no cell in sight changed between
/// the two generations, so Conway's verdicts did not change either and the
/// new grid is already stable there. This is what lets ticks chain
/// indefinitely without re-bootstrapping.
pub proof fn lemma_step_preserves_soundness(
    g: Seq<Seq<bool>>,
    g2: Seq<Seq<bool>>,
    cg2: Seq<Seq<bool>>,
    n: int,
    cs: int,
    nc: int,
)
    requires
        cs > 0,
        n == nc * cs,
        is_next_generation(g, g2, n),
        forall|a: int, b: int|
            in_grid(nc, a, b) ==> #[trigger] cg2[a][b] == chunk_differs(g, g2, cs, a, b),
    ensures
        stable_where_quiet(g2, cg2, n, cs),
{
    assert forall|r: int, c: int|
        in_grid(n, r, c) && #[trigger] window_quiet(cg2, n, cs, r, c) implies next_cell(
        g2,
        n,
        r,
        c,
    ) == g2[r][c] by {
        assert forall|x: int, y: int|
            r - 1 <= x <= r + 1 && c - 1 <= y <= c + 1 && in_grid(n, x, y) implies #[trigger] g2[x][y]
            == g[x][y] by {
            lemma_self_chunk(x, cs);
            lemma_self_chunk(y, cs);
            lemma_chunk_row_bound(x, cs, nc);
            lemma_chunk_row_bound(y, cs, nc);
            assert(in_chunk(cs, x / cs, y / cs, x, y));
            assert(!cg2[x / cs][y / cs]);
            if g2[x][y] != g[x][y] {
                assert(chunk_differs(g, g2, cs, x / cs, y / cs));
                assert(false);
            }
        }
        assert(neighbor_count(g2, n, r, c) == neighbor_count(g, n, r, c));
        assert(g2[r][c] == g[r][c]);
        assert(g2[r][c] == next_cell(g, n, r, c));
    }
}

/// Idempotence of Skip: when a chunk and all of its chunk-neighbors are
/// unmarked in a sound chunk matrix, a full tick leaves every cell of that
/// chunk exactly as it was.
pub proof fn lemma_skip_chunk_unchanged(
    g: Seq<Seq<bool>>,
    g2: Seq<Seq<bool>>,
    cg: Seq<Seq<bool>>,
    n: int,
    cs: int,
    nc: int,
    cr: int,
    cc: int,
)
    requires
        cs > 0,
        n == nc * cs,
        in_grid(nc, cr, cc),
        stable_where_quiet(g, cg, n, cs),
        !cg[cr][cc],
        !any_neighbor_marked(cg, nc, cr, cc),
        is_next_generation(g, g2, n),
    ensures
        forall|r: int, c: int| #[trigger] in_chunk(cs, cr, cc, r, c) ==> g2[r][c] == g[r][c],
{
    assert forall|r: int, c: int| #[trigger] in_chunk(cs, cr, cc, r, c) implies g2[r][c]
        == g[r][c] by {
        lemma_chunk_cell_in_grid(cs, nc, n, cr, cc, r, c);
        lemma_skip_chunk_quiet(cg, n, cs, nc, cr, cc, r, c);
    }
}

/// One atomic tick. Consults the planner for every chunk, evaluates
/// Conway's rule on the selected cells only, and returns the next grid
/// together with the next chunk matrix. Provided the incoming chunk matrix
/// soundly over-approximates activity, the next grid is bit-for-bit the
/// naive full-grid application of Conway's rule, and each next flag is set
/// exactly when some cell of its chunk changed value.
#[verifier::loop_isolation(false)]
#[verifier::rlimit(100)]
pub fn iterate_generation(g: &Grid, cg: &ChunkGrid, cs: usize) -> (next: (Grid, ChunkGrid))
    requires
        g.wf(),
        cg.wf(),
        cs > 0,
        g.side() == cg.side() * (cs as int),
        stable_where_quiet(g@, cg@, g.side(), cs as int),
    ensures
        next.0.wf(),
        next.0.side() == g.side(),
        next.1.wf(),
        next.1.side() == cg.side(),
        is_next_generation(g@, next.0@, g.side()),
        forall|a: int, b: int|
            in_grid(cg.side(), a, b) ==> next.1@[a][b] == chunk_differs(
                g@,
                next.0@,
                cs as int,
                a,
                b,
            ),
{
    let ghost csi: int = cs as int;
    let ghost n: int = g.side();
    let ghost nci: int = cg.side();
    let nc = cg.len();
    let mut out = g.duplicate();
    let mut new_cg = cg.duplicate();
    let mut cr: usize = 0;
    while cr < nc
        invariant
            cr <= nc,
            out.wf(),
            out.side() == n,
            new_cg.wf(),
            new_cg.side() == nci,
            forall|i: int, j: int|
                #![trigger out@[i][j]]
                in_grid(n, i, j) && chunk_done(cr as int, 0, i / csi, j / csi) ==> out@[i][j]
                    == planned_cell(g@, cg@, n, csi, nci, i, j),
            forall|i: int, j: int|
                #![trigger out@[i][j]]
                in_grid(n, i, j) && !chunk_done(cr as int, 0, i / csi, j / csi) ==> out@[i][j]
                    == g@[i][j],
            forall|a: int, b: int|
                #![trigger new_cg@[a][b]]
                in_grid(nci, a, b) && chunk_done(cr as int, 0, a, b) ==> new_cg@[a][b]
                    == planned_flag(g@, cg@, n, csi, nci, a, b),
            forall|a: int, b: int|
                #![trigger new_cg@[a][b]]
                in_grid(nci, a, b) && !chunk_done(cr as int, 0, a, b) ==> new_cg@[a][b]
                    == cg@[a][b],
        decreases nc - cr,
    {
        let mut cc: usize = 0;
        while cc < nc
            invariant
                cc <= nc,
                cr < nc,
                out.wf(),
                out.side() == n,
                new_cg.wf(),
                new_cg.side() == nci,
                forall|i: int, j: int|
                    #![trigger out@[i][j]]
                    in_grid(n, i, j) && chunk_done(cr as int, cc as int, i / csi, j / csi)
                        ==> out@[i][j] == planned_cell(g@, cg@, n, csi, nci, i, j),
                forall|i: int, j: int|
                    #![trigger out@[i][j]]
                    in_grid(n, i, j) && !chunk_done(cr as int, cc as int, i / csi, j / csi)
                        ==> out@[i][j] == g@[i][j],
                forall|a: int, b: int|
                    #![trigger new_cg@[a][b]]
                    in_grid(nci, a, b) && chunk_done(cr as int, cc as int, a, b) ==> new_cg@[a][b]
                        == planned_flag(g@, cg@, n, csi, nci, a, b),
                forall|a: int, b: int|
                    #![trigger new_cg@[a][b]]
                    in_grid(nci, a, b) && !chunk_done(cr as int, cc as int, a, b) ==> new_cg@[a][b]
                        == cg@[a][b],
            decreases nc - cc,
        {
            let ghost a0: int = cr as int;
            let ghost b0: int = cc as int;
            let action = cg.plan_chunk(cr, cc);
            let do_scan = !(matches!(action, ScanAction::Skip));
            let border_only = matches!(action, ScanAction::BorderOnly);
            let ghost prev_out: Grid = out;
            let ghost prev_cg: ChunkGrid = new_cg;
            if do_scan {
                proof {
                    assert((a0 + 1) * csi <= n) by (nonlinear_arith)
                        requires
                            csi > 0 && a0 + 1 <= nci && n == nci * csi,
                    ;
                    assert((b0 + 1) * csi <= n) by (nonlinear_arith)
                        requires
                            csi > 0 && b0 + 1 <= nci && n == nci * csi,
                    ;
                }
                let ch = scan_chunk(g, &mut out, cs, cr, cc, border_only);
                new_cg.set(cr, cc, ch);
                proof {
                    if border_only {
                        lemma_scan_exists_border(g@, n, csi, a0, b0);
                    } else {
                        lemma_scan_exists_full(g@, n, csi, a0, b0);
                    }
                }
            }
            proof {
                assert forall|i: int, j: int|
                    in_grid(n, i, j) && chunk_done(a0, b0 + 1, i / csi, j / csi) implies out@[i][j]
                    == planned_cell(g@, cg@, n, csi, nci, i, j) by {
                    lemma_self_chunk(i, csi);
                    lemma_self_chunk(j, csi);
                    let a = i / csi;
                    let b = j / csi;
                    assert(in_chunk(csi, a, b, i, j));
                    if a == a0 && b == b0 {
                        if do_scan {
                            if border_only {
                                if on_chunk_border(csi, a0, b0, i, j) {
                                    assert(scanned(csi, a0, b0, true, i, j));
                                } else {
                                    assert(!scanned(csi, a0, b0, true, i, j));
                                    assert(out@[i][j] == prev_out@[i][j]);
                                }
                            } else {
                                assert(scanned(csi, a0, b0, false, i, j));
                            }
                        }
                    } else {
                        if in_chunk(csi, a0, b0, i, j) {
                            lemma_in_chunk_div(i, csi, a0);
                            lemma_in_chunk_div(j, csi, b0);
                            assert(false);
                        }
                        if do_scan {
                            assert(!scanned(csi, a0, b0, border_only, i, j));
                            assert(out@[i][j] == prev_out@[i][j]);
                        }
                    }
                }
                assert forall|i: int, j: int|
                    in_grid(n, i, j) && !chunk_done(a0, b0 + 1, i / csi, j / csi) implies out@[i][j]
                    == g@[i][j] by {
                    lemma_self_chunk(i, csi);
                    lemma_self_chunk(j, csi);
                    let a = i / csi;
                    let b = j / csi;
                    if in_chunk(csi, a0, b0, i, j) {
                        lemma_in_chunk_div(i, csi, a0);
                        lemma_in_chunk_div(j, csi, b0);
                        assert(false);
                    }
                    if do_scan {
                        assert(!scanned(csi, a0, b0, border_only, i, j));
                        assert(out@[i][j] == prev_out@[i][j]);
                    }
                }
                assert forall|a: int, b: int|
                    in_grid(nci, a, b) && chunk_done(a0, b0 + 1, a, b) implies new_cg@[a][b]
                    == planned_flag(g@, cg@, n, csi, nci, a, b) by {
                }
                assert forall|a: int, b: int|
                    in_grid(nci, a, b) && !chunk_done(a0, b0 + 1, a, b) implies new_cg@[a][b]
                    == cg@[a][b] by {
                }
            }
            cc = cc + 1;
        }
        proof {
            assert forall|i: int, j: int|
                in_grid(n, i, j) && chunk_done(cr as int + 1, 0, i / csi, j / csi) implies chunk_done(
                cr as int,
                nc as int,
                i / csi,
                j / csi,
            ) by {
                lemma_chunk_row_bound(j, csi, nci);
            }
        }
        cr = cr + 1;
    }
    proof {
        lemma_planned_matches_naive(g@, cg@, n, csi, nci);
        assert forall|i: int, j: int| in_grid(n, i, j) implies out@[i][j] == next_cell(
            g@,
            n,
            i,
            j,
        ) by {
            lemma_chunk_row_bound(i, csi, nci);
            lemma_chunk_row_bound(j, csi, nci);
            assert(chunk_done(nc as int, 0, i / csi, j / csi));
            assert(planned_cell(g@, cg@, n, csi, nci, i, j) == next_cell(g@, n, i, j));
        }
        assert forall|a: int, b: int| in_grid(nci, a, b) implies new_cg@[a][b] == chunk_differs(
            g@,
            out@,
            csi,
            a,
            b,
        ) by {
            assert(new_cg@[a][b] == planned_flag(g@, cg@, n, csi, nci, a, b));
            assert(new_cg@[a][b] == chunk_activity(g@, n, csi, a, b));
            if chunk_activity(g@, n, csi, a, b) {
                let (r0, c0) = choose|r: int, c: int|
                    #[trigger] in_chunk(csi, a, b, r, c) && next_cell(g@, n, r, c) != g@[r][c];
                lemma_chunk_cell_in_grid(csi, nci, n, a, b, r0, c0);
                assert(in_chunk(csi, a, b, r0, c0) && g@[r0][c0] != out@[r0][c0]);
            }
            if chunk_differs(g@, out@, csi, a, b) {
                let (r0, c0) = choose|r: int, c: int|
                    #[trigger] in_chunk(csi, a, b, r, c) && g@[r][c] != out@[r][c];
                lemma_chunk_cell_in_grid(csi, nci, n, a, b, r0, c0);
                assert(in_chunk(csi, a, b, r0, c0) && next_cell(g@, n, r0, c0) != g@[r0][c0]);
            }
        }
    }
    (out, new_cg)
}

} // verus!
