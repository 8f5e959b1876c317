use chunked_life::{get_click_indexes, is_perfect_square, valid_constants};
use chunked_life::grid::Grid;
use chunked_life::chunks::{ChunkGrid, ScanAction};
use chunked_life::bootstrap::bruteforce_changes;
use chunked_life::stepper::iterate_generation;

#[test]
fn perfect_squares_are_recognized() {
    assert!(is_perfect_square(0));
    assert!(is_perfect_square(1));
    assert!(is_perfect_square(4));
    assert!(is_perfect_square(9));
    assert!(is_perfect_square(16));
    assert!(is_perfect_square(25));
    assert!(is_perfect_square(65025)); // 255 * 255
    assert!(is_perfect_square(4294836225)); // 65535 * 65535
}

#[test]
fn non_squares_are_rejected() {
    assert!(!is_perfect_square(2));
    assert!(!is_perfect_square(3));
    assert!(!is_perfect_square(5));
    assert!(!is_perfect_square(8));
    assert!(!is_perfect_square(24));
    assert!(!is_perfect_square(26));
    assert!(!is_perfect_square(u32::MAX));
}

#[test]
fn constants_are_valid() {
    assert!(valid_constants());
}

#[test]
fn click_inside_viewport_maps_to_cell() {
    // viewport starts at (H_MARGIN, V_MARGIN) = (20, 40), cells are 10px
    assert_eq!(get_click_indexes(20, 40), ((0, 0), true));
    assert_eq!(get_click_indexes(29, 49), ((0, 0), true));
    assert_eq!(get_click_indexes(30, 50), ((1, 1), true));
    assert_eq!(get_click_indexes(255, 123), ((8, 23), true));
    // bottom-right cell: x in [810, 820), y in [630, 640)
    assert_eq!(get_click_indexes(819, 639), ((59, 79), true));
}

#[test]
fn click_outside_viewport_is_rejected() {
    assert_eq!(get_click_indexes(19, 40), ((-1, -1), false));
    assert_eq!(get_click_indexes(20, 39), ((-1, -1), false));
    assert_eq!(get_click_indexes(-5, -5), ((-1, -1), false));
    assert_eq!(get_click_indexes(820, 639), ((-1, -1), false));
    assert_eq!(get_click_indexes(819, 640), ((-1, -1), false));
}

#[test]
fn neighbor_count_is_clamped_at_corners() {
    let mut g = Grid::new(4);
    // surround the corner (0, 0) with its only three neighbors
    g.set(0, 1, true);
    g.set(1, 0, true);
    g.set(1, 1, true);
    let corner = g.get_neighbors(0, 0);
    assert_eq!(corner, 3);
    // the cell itself is never counted
    g.set(0, 0, true);
    assert_eq!(g.get_neighbors(0, 0), 3);
}

#[test]
fn neighbor_count_reaches_eight_in_the_interior() {
    let mut g = Grid::new(4);
    for r in 0..3 {
        for c in 0..3 {
            g.set(r, c, true);
        }
    }
    let count = g.get_neighbors(1, 1);
    assert_eq!(count, 8);
    assert!(count <= 8);
    // edge cell of the block sees fewer
    assert_eq!(g.get_neighbors(0, 1), 5);
}

#[test]
fn grid_population_is_counted() {
    let mut g = Grid::new(6);
    assert_eq!(g.count_live(), 0);
    g.set(0, 0, true);
    g.set(5, 5, true);
    g.set(2, 3, true);
    assert_eq!(g.count_live(), 3);
    g.set(2, 3, false);
    assert_eq!(g.count_live(), 2);
}

#[test]
fn planner_decides_full_border_and_skip() {
    let mut cg = ChunkGrid::new_filled(4, false);
    cg.set(0, 0, true);
    // the changed chunk itself is rescanned in full
    assert!(matches!(cg.plan_chunk(0, 0), ScanAction::FullScan));
    // its chunk-neighbors get a border-only scan
    assert!(matches!(cg.plan_chunk(0, 1), ScanAction::BorderOnly));
    assert!(matches!(cg.plan_chunk(1, 1), ScanAction::BorderOnly));
    // chunks farther away are skipped
    assert!(matches!(cg.plan_chunk(0, 2), ScanAction::Skip));
    assert!(matches!(cg.plan_chunk(3, 3), ScanAction::Skip));
    // a chunk's own flag is not a neighbor of itself
    assert!(cg.has_changed_neighbors(1, 0));
    assert!(!cg.has_changed_neighbors(0, 0));
}

#[test]
fn bootstrap_marks_exactly_the_chunks_with_live_cells() {
    let mut g = Grid::new(8);
    // one live cell in chunk (0, 1) and one in chunk (1, 1)
    g.set(1, 5, true);
    g.set(7, 4, true);
    let cg = bruteforce_changes(&g, 4, 2);
    assert!(!cg.get(0, 0));
    assert!(cg.get(0, 1));
    assert!(!cg.get(1, 0));
    assert!(cg.get(1, 1));
}

#[test]
fn quiet_chunks_are_left_untouched_by_a_tick() {
    // a 2x2 block (a still life) with an all-quiet chunk matrix:
    // the tick must leave every cell exactly as it was
    let mut g = Grid::new(8);
    g.set(1, 1, true);
    g.set(1, 2, true);
    g.set(2, 1, true);
    g.set(2, 2, true);
    let cg = ChunkGrid::new_filled(2, false);
    let (next, next_cg) = iterate_generation(&g, &cg, 4);
    for r in 0..8 {
        for c in 0..8 {
            assert_eq!(next.get(r, c), g.get(r, c));
        }
    }
    for cr in 0..2 {
        for cc in 0..2 {
            assert!(!next_cg.get(cr, cc));
        }
    }
}

#[test]
fn chunked_tick_equals_naive_conway() {
    // a deterministic, irregular soup; the chunked stepper must agree with
    // a naive full-grid reference, bit for bit, across several generations
    let n = 12;
    let mut g = Grid::new(n);
    let mut reference = vec![vec![false; n]; n];
    for r in 0..n {
        for c in 0..n {
            let alive = (r * 7 + c * 13 + (r * c) % 11) % 5 < 2;
            g.set(r, c, alive);
            reference[r][c] = alive;
        }
    }
    let mut cg = bruteforce_changes(&g, 3, 4);
    for _ in 0..6 {
        let (next, next_cg) = iterate_generation(&g, &cg, 3);
        reference = naive_step(&reference);
        for r in 0..n {
            for c in 0..n {
                assert_eq!(next.get(r, c), reference[r][c]);
            }
        }
        g = next;
        cg = next_cg;
    }
}

/// Naive full-grid Conway step with clamped boundaries, as a reference.
fn naive_step(grid: &Vec<Vec<bool>>) -> Vec<Vec<bool>> {
    let n = grid.len() as i32;
    let mut out = vec![vec![false; n as usize]; n as usize];
    for r in 0..n {
        for c in 0..n {
            let mut neighbors = 0;
            for dr in -1..=1i32 {
                for dc in -1..=1i32 {
                    if dr == 0 && dc == 0 {
                        continue;
                    }
                    let (i, j) = (r + dr, c + dc);
                    if i >= 0 && i < n && j >= 0 && j < n && grid[i as usize][j as usize] {
                        neighbors += 1;
                    }
                }
            }
            out[r as usize][c as usize] = if grid[r as usize][c as usize] {
                neighbors == 2 || neighbors == 3
            } else {
                neighbors == 3
            };
        }
    }
    out
}
