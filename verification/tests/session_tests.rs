use chunked_life::session::{RunState, Session};

fn blinker_session() -> Session {
    // 8x8 grid, chunks of 4x4 cells, so a 2x2 chunk matrix; the horizontal
    // blinker at row 1, columns 0..=2 stays inside chunk (0, 0) in both of
    // its phases
    let mut s = Session::new(8, 4).unwrap();
    s.set_cell(1, 0, true);
    s.set_cell(1, 1, true);
    s.set_cell(1, 2, true);
    s
}

#[test]
fn misconfiguration_is_rejected_at_construction() {
    assert!(Session::new(8, 3).is_none()); // 3 does not divide 8
    assert!(Session::new(8, 0).is_none()); // no chunk side
    assert!(Session::new(10, 4).is_none());
    assert!(Session::new(8, 4).is_some());
    assert!(Session::new(0, 1).is_some()); // empty grid is consistent
}

#[test]
fn new_session_is_idle_and_dead() {
    let s = Session::new(8, 4).unwrap();
    assert_eq!(s.current_state(), RunState::Idle);
    assert_eq!(s.generation_count(), 0);
    assert_eq!(s.population_count(), 0);
    for r in 0..8 {
        for c in 0..8 {
            assert!(!s.get_cell(r, c));
        }
    }
}

#[test]
fn blinker_oscillates_with_period_two() {
    let mut s = blinker_session();
    s.start_run();
    assert_eq!(s.current_state(), RunState::Running);

    s.iteration(true);
    // vertical phase: column 1, rows 0..=2
    assert!(s.get_cell(0, 1));
    assert!(s.get_cell(1, 1));
    assert!(s.get_cell(2, 1));
    assert!(!s.get_cell(1, 0));
    assert!(!s.get_cell(1, 2));
    assert_eq!(s.population_count(), 3);

    s.iteration(true);
    // back to the horizontal phase
    assert!(s.get_cell(1, 0));
    assert!(s.get_cell(1, 1));
    assert!(s.get_cell(1, 2));
    assert!(!s.get_cell(0, 1));
    assert!(!s.get_cell(2, 1));
    assert_eq!(s.generation_count(), 2);
}

#[test]
fn blinker_scenario_marks_only_its_chunk() {
    let mut s = blinker_session();
    s.start_run();
    // bootstrapping from scratch marks exactly the chunk holding the blinker
    assert!(s.chunk_changed(0, 0));
    assert!(!s.chunk_changed(0, 1));
    assert!(!s.chunk_changed(1, 0));
    assert!(!s.chunk_changed(1, 1));

    s.iteration(true);
    // after one tick only that chunk's entry is marked as changed
    assert!(s.chunk_changed(0, 0));
    assert!(!s.chunk_changed(0, 1));
    assert!(!s.chunk_changed(1, 0));
    assert!(!s.chunk_changed(1, 1));

    s.iteration(true);
    // after two ticks the blinker is back to its original cell pattern
    assert!(s.get_cell(1, 0));
    assert!(s.get_cell(1, 1));
    assert!(s.get_cell(1, 2));
    assert!(!s.get_cell(0, 1));
    assert!(!s.get_cell(2, 1));
}

#[test]
fn glider_translates_by_one_one_every_four_ticks() {
    let mut s = Session::new(16, 4).unwrap();
    let glider = [(1, 2), (2, 3), (3, 1), (3, 2), (3, 3)];
    for &(r, c) in glider.iter() {
        s.set_cell(r, c, true);
    }
    s.start_run();
    for _ in 0..4 {
        s.iteration(true);
    }
    let expected: Vec<(usize, usize)> = glider.iter().map(|&(r, c)| (r + 1, c + 1)).collect();
    for r in 0..16 {
        for c in 0..16 {
            assert_eq!(s.get_cell(r, c), expected.contains(&(r, c)));
        }
    }
    assert_eq!(s.generation_count(), 4);
}

#[test]
fn abort_restores_the_exact_pre_run_grid() {
    let mut s = Session::new(16, 4).unwrap();
    s.set_cell(1, 2, true);
    s.set_cell(2, 3, true);
    s.set_cell(3, 1, true);
    s.set_cell(3, 2, true);
    s.set_cell(3, 3, true);
    let mut before = Vec::new();
    for r in 0..16 {
        for c in 0..16 {
            before.push(s.get_cell(r, c));
        }
    }
    s.start_run();
    s.iteration(true);
    s.iteration(true);
    s.iteration(true);
    s.abort_run(false);
    assert_eq!(s.current_state(), RunState::Idle);
    assert_eq!(s.generation_count(), 0);
    let mut idx = 0;
    for r in 0..16 {
        for c in 0..16 {
            assert_eq!(s.get_cell(r, c), before[idx]);
            idx += 1;
        }
    }
}

#[test]
fn abort_and_save_keeps_the_evolved_grid() {
    let mut s = blinker_session();
    s.start_run();
    s.iteration(true);
    // vertical phase on the board now
    s.abort_run(true);
    assert_eq!(s.current_state(), RunState::Idle);
    assert_eq!(s.generation_count(), 0);
    assert!(s.get_cell(0, 1));
    assert!(s.get_cell(1, 1));
    assert!(s.get_cell(2, 1));
    assert!(!s.get_cell(1, 0));
    assert!(!s.get_cell(1, 2));
}

#[test]
fn edits_are_ignored_while_running() {
    let mut s = Session::new(8, 4).unwrap();
    s.start_run();
    s.set_cell(5, 5, true);
    assert!(!s.get_cell(5, 5));
    s.clear_grid(); // also a no-op outside Idle
    s.pause_run();
    s.set_cell(5, 5, true); // edits are allowed while paused
    assert!(s.get_cell(5, 5));
}

#[test]
fn pause_and_resume_rebootstrap_after_edits() {
    let mut s = blinker_session();
    s.start_run();
    s.iteration(true);
    s.pause_run();
    assert_eq!(s.current_state(), RunState::Paused);
    s.iteration(true); // ticking is halted
    assert!(s.get_cell(0, 1) && s.get_cell(1, 1) && s.get_cell(2, 1));
    // draw a second blinker in the opposite corner while paused
    s.set_cell(6, 5, true);
    s.set_cell(6, 6, true);
    s.set_cell(6, 7, true);
    s.resume_run();
    assert_eq!(s.current_state(), RunState::Running);
    // the rebuilt chunk matrix watches the newly edited chunk too
    assert!(s.chunk_changed(1, 1));
    s.iteration(true);
    assert!(s.get_cell(5, 6) && s.get_cell(6, 6) && s.get_cell(7, 6));
}

#[test]
fn clear_grid_kills_every_cell_when_idle() {
    let mut s = blinker_session();
    assert_eq!(s.population_count(), 3);
    s.clear_grid();
    assert_eq!(s.population_count(), 0);
}

#[test]
fn cooldown_gates_the_tick() {
    let mut s = blinker_session();
    s.start_run();
    s.iteration(false);
    assert_eq!(s.generation_count(), 0);
    assert!(s.get_cell(1, 0) && s.get_cell(1, 1) && s.get_cell(1, 2));
    s.iteration(true);
    assert_eq!(s.generation_count(), 1);
}

#[test]
fn start_pattern_seeds_gun_and_spaceship() {
    let mut s = Session::new(128, 32).unwrap();
    s.load_start_generation();
    // 36 cells of the glider gun plus 12 of the lightweight spaceship
    assert_eq!(s.population_count(), 48);
    assert!(s.get_cell(44, 48));
    assert!(s.get_cell(70, 53));
    assert!(!s.get_cell(0, 0));
    // seeding twice changes nothing: cells are switched alive, not toggled
    s.load_start_generation();
    assert_eq!(s.population_count(), 48);
}
