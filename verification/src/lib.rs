//! An incremental Conway's Game of Life engine over a large square grid.
//!
//! The grid is tiled by square chunks; a coarse boolean matrix records which
//! chunks changed during the last generation. Each tick rescans only the
//! chunks that changed or that border a changed chunk (border chunks get a
//! cheap outer-ring scan), and the result is proved bit-for-bit equal to a
//! naive full-grid application of Conway's rule.

use vstd::prelude::*;

pub mod bootstrap;
pub mod chunks;
pub mod grid;
pub mod model;
pub mod session;
pub mod stepper;

verus! {

/// Side length of the full cell grid used by the demo application.
pub const MATRIX_SIZE: u32 = 4096;

/// Side length of the chunk matrix: the grid is split into
/// `SUB_MATRIX_SIZE` x `SUB_MATRIX_SIZE` chunks.
pub const SUB_MATRIX_SIZE: u32 = 128;

/// Side length, in cells, of one chunk.
pub const SUB_MATRIX_CHUNK_SIZE: u32 = MATRIX_SIZE / SUB_MATRIX_SIZE;

/// Pixel side length of one displayed cell.
pub const SIZE: u32 = 10;

/// Number of grid columns shown in the viewport.
pub const VIEW_COLS: u32 = 80;

/// Number of grid rows shown in the viewport.
pub const VIEW_ROWS: u32 = 60;

/// Pixels between the window's left edge and the viewport.
pub const H_MARGIN: u32 = 20;

/// Pixels between the window's top edge and the viewport.
pub const V_MARGIN: u32 = 40;

/// Map a window position in pixels to the viewport cell under it. Returns
/// the (row, column) of that cell and `true` when the position lies on the
/// viewport, and `(-1, -1)` and `false` otherwise.
pub fn get_click_indexes(x: i32, y: i32) -> (result: ((i32, i32), bool))
    ensures
        result.1 == (V_MARGIN <= y < V_MARGIN + VIEW_ROWS * SIZE && H_MARGIN <= x < H_MARGIN
            + VIEW_COLS * SIZE),
        result.1 ==> result.0.0 == (y - V_MARGIN) / (SIZE as int) && result.0.1 == (x - H_MARGIN)
            / (SIZE as int) && 0 <= result.0.0 < VIEW_ROWS && 0 <= result.0.1 < VIEW_COLS,
        !result.1 ==> result.0.0 == -1 && result.0.1 == -1,
{
    let v_margin = V_MARGIN as i32;
    let h_margin = H_MARGIN as i32;
    let cell = SIZE as i32;
    if y >= v_margin && y < v_margin + (VIEW_ROWS * SIZE) as i32 && x >= h_margin && x < h_margin
        + (VIEW_COLS * SIZE) as i32 {
        let row = (y - v_margin) / cell;
        let col = (x - h_margin) / cell;
        ((row, col), true)
    } else {
        ((-1, -1), false)
    }
}

/// Checks the compile-time grid configuration used by the application.
pub fn valid_constants() -> (r: bool)
    ensures
        r == (MATRIX_SIZE % 8 == 0),
{
    MATRIX_SIZE % 8 == 0
}

/// Decides whether `number` is a perfect square.
pub fn is_perfect_square(number: u32) -> (r: bool)
    ensures
        r == exists|k: int| 0 <= k && #[trigger] (k * k) == number as int,
{
    let n: u64 = number as u64;
    let mut k: u64 = 0;
    while k < 0x1_0000
        invariant
            k <= 0x1_0000,
            n == number as int,
            forall|j: int| 0 <= j < k ==> #[trigger] (j * j) != n as int,
        decreases 0x1_0000 - k,
    {
        assert(k * k < 0x1_0000_0000) by (nonlinear_arith)
            requires
                0 <= k < 0x1_0000,
        ;
        if k * k == n {
            return true;
        }
        k = k + 1;
    }
    assert forall|j: int| 0 <= j implies #[trigger] (j * j) != number as int by {
        if j >= 0x1_0000 {
            assert(j * j >= 0x1_0000_0000) by (nonlinear_arith)
                requires
                    j >= 0x1_0000,
            ;
        }
    }
    false
}

} // verus!

