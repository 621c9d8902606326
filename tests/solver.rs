use second_best::eval::{decode_eval, ExplainableEval, LOSS};
use second_best::position::{PlayerMove, Position};
use second_best::solver::{generate_random_position, Solver};
use std::sync::atomic::{AtomicBool, Ordering};
use std::sync::Arc;

fn words(s: &str) -> Vec<String> {
    s.split_whitespace().map(|s| s.to_string()).collect()
}

#[test]
fn lost_position_scores_loss_at_its_ply() {
    let mut solver = Solver::default();
    solver.position.parse_and_play_moves(words("0 1 0 1 0 ! 1 0 ! 7 7 ! 0")).unwrap();
    assert!(solver.position.game_over());
    let ply = solver.position.num_moves() as isize;
    assert_eq!(solver.search(1), LOSS + ply);
}

#[test]
fn opening_three_stones_in_one_stack() {
    let mut solver = Solver::default();
    solver.position.parse_and_play_moves(words("0 0 0")).unwrap();
    // Stack 0 holds black, white, black: nobody has an alignment yet.
    assert!(!solver.position.game_over());
    let score = solver.search(1);
    assert!(matches!(decode_eval(score, 3), ExplainableEval::Undetermined(_)));
}

#[test]
fn forced_second_best_defense() {
    let mut solver = Solver::default();
    solver.position.parse_and_play_moves(words("1 2 1 2 1")).unwrap();
    let ply = solver.position.num_moves() as isize;
    let score = solver.search(2);
    let pv = solver.principal_variation();
    assert_eq!(pv[0], PlayerMove::SecondBest);
    assert!(matches!(decode_eval(score, ply), ExplainableEval::Undetermined(_)));
    // The search leaves the position as it found it.
    assert_eq!(solver.position.num_moves(), 5);
}

#[test]
fn symmetric_second_phase_search() {
    let mut solver = Solver::default();
    solver.position.parse_and_play_moves(words("0 1 2 3 4 5 6 7 1 2 3 4 5 6 7 0")).unwrap();
    let played = solver.position.played_spots();
    let first = solver.search(5);
    assert!(!solver.abort_search());
    assert_eq!(solver.position.played_spots(), played);
    let again = solver.search(5);
    assert_eq!(first, again);
}

#[test]
fn deeper_search_keeps_a_found_mate() {
    // Black to move can place on stack 0 and leave white lost.
    let mut solver = Solver::default();
    solver.position.parse_and_play_moves(words("0 1 0 1 0 ! 1 0 ! 7 7 !")).unwrap();
    let ply = solver.position.num_moves() as isize;
    let shallow = decode_eval(solver.search(1), ply);
    assert!(matches!(shallow, ExplainableEval::Win(_)));
    for depth in 2..5 {
        assert_eq!(decode_eval(solver.search(depth), ply), shallow);
    }
}

#[test]
fn starting_position_is_not_decided_early() {
    let mut solver = Solver::default();
    let score = solver.search(3);
    assert!(matches!(decode_eval(score, 0), ExplainableEval::Undetermined(_)));
    assert!(solver.nodes() > 0);
    assert_eq!(Position::default().num_moves(), solver.position.num_moves());
}

#[test]
fn symmetric_solver_benchmark() {
    let mut solver = Solver::default();
    solver.position.parse_and_play_moves(words("0 1 2 3 4 5 6 7 1 2 3 4 5 6 7 0")).unwrap();
    let score = solver.search(9);
    assert!(!solver.abort_search());
    assert!(solver.nodes() > 0);
    // The same search again, with the table filled, finds the same score.
    assert_eq!(solver.search(9), score);
}

#[test]
fn stop_flag_ends_the_search() {
    let abort = Arc::new(AtomicBool::new(true));
    let mut solver = Solver::new(abort.clone());
    assert!(solver.abort_search());
    // The flag is seen at the first node: no iteration completes.
    assert_eq!(solver.search(6), 0);
    abort.store(false, Ordering::Relaxed);
    assert!(!solver.abort_search());
}

#[test]
fn random_positions_for_benchmarks() {
    let mut solver = Solver::default();
    let found = generate_random_position(&mut solver, 4, 12, 1, 3, 7);
    assert_eq!(solver.position.num_moves(), 0);
    if let Some(text) = found {
        let mut pos = Position::default();
        pos.parse_and_play_moves(words(&text)).unwrap();
        assert!(pos.num_moves() >= 4 && pos.num_moves() <= 12);
    }
}

#[test]
fn depth_is_limited_by_the_move_counter() {
    let solver = Solver::default();
    assert_eq!(solver.depth_limit(7), 7);
    assert_eq!(solver.depth_limit(1000), Position::MAX_MOVES);
    // A mate ends iterative deepening, as does the last depth.
    assert!(!solver.continue_after(3, 5, -995));
    assert!(!solver.continue_after(5, 5, 0));
    assert!(solver.continue_after(3, 5, 12));
}

#[test]
fn quiet_and_noisy() {
    let mut solver = Solver::default();
    assert!(solver.quiet());
    solver.be_noisy();
    assert!(!solver.quiet());
    solver.be_quiet();
    assert!(solver.quiet());
}
