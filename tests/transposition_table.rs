use second_best::position::{BitboardMove, Position};
use second_best::transposition_table::{next_prime, EntryType, TTMove, TranspositionTable};

#[test]
fn tt_move() {
    let mut pos = Position::default();
    let bmove = BitboardMove::StoneMove(pos.stone_move(None, 0));
    assert_eq!(TTMove::from_bitboard_move(&pos, bmove).to_bitboard_move(&pos), bmove);
    pos.make_move(bmove);
    assert_eq!(
        TTMove::from_bitboard_move(&pos, BitboardMove::SecondBest).to_bitboard_move(&pos),
        BitboardMove::SecondBest
    );
    for to in [1, 2, 3, 4, 5, 6, 7, 1, 2, 3, 4, 5, 6, 7, 0] {
        let bmove = BitboardMove::StoneMove(pos.stone_move(None, to));
        assert_eq!(TTMove::from_bitboard_move(&pos, bmove).to_bitboard_move(&pos), bmove);
        pos.make_move(bmove);
    }
    for (from, to) in [(1, 2), (0, 1), (3, 5)] {
        let bmove = BitboardMove::StoneMove(pos.stone_move(Some(from), to));
        assert_eq!(TTMove::from_bitboard_move(&pos, bmove).to_bitboard_move(&pos), bmove);
        pos.make_move(bmove);
    }
}

#[test]
fn tt_entries() {
    let mut pos = Position::default();
    let mut tt = TranspositionTable::default();
    for to in 0..8 {
        let bmove = BitboardMove::StoneMove(pos.stone_move(None, to));
        tt.store(&pos, 0, bmove, EntryType::Exact, 0);
        assert_eq!(tt.get(&pos).unwrap().best_move(&pos), bmove);
        pos.make_move(bmove);
    }
    for _ in 0..8 {
        pos.unmake_move();
    }
    for to in 0..8 {
        let bmove = BitboardMove::StoneMove(pos.stone_move(None, to));
        pos.make_move(bmove);
        pos.second_best();
        let bmove = BitboardMove::StoneMove(pos.stone_move(None, (1 + to) % 8));
        tt.store(&pos, 0, bmove, EntryType::Exact, 0);
        assert_eq!(tt.get(&pos).unwrap().best_move(&pos), bmove);
        pos.make_move(bmove);
    }
    for _ in 0..(8 * 3) {
        pos.unmake_move();
    }
    for to in 0..8 {
        let bmove = BitboardMove::StoneMove(pos.stone_move(None, to));
        assert_eq!(tt.get(&pos).unwrap().best_move(&pos), bmove);
        pos.make_move(bmove);
    }
}

#[test]
fn transposition_table_second_best() {
    let mut pos = Position::default();
    let mut tt = TranspositionTable::default();
    pos.make_phase_one_move(1);
    pos.make_phase_one_move(2);
    tt.store(&pos, 0, BitboardMove::SecondBest, EntryType::Undetermined, 0);
    pos.unmake_move();
    pos.unmake_move();
    pos.make_phase_one_move(2);
    pos.make_phase_one_move(1);
    // Even though the position is the "same", calling "Second Best!" would
    // have a different effect, and hence the score might be different.
    assert_eq!(tt.get(&pos), None);
}

fn played(moves: &str) -> Position {
    let mut pos = Position::default();
    pos.parse_and_play_moves(moves.split_whitespace().map(|s| s.to_string()).collect()).unwrap();
    pos
}

#[test]
fn key_tells_retraction_apart() {
    // Same stones, same last move, "Second Best!" allowed in both.
    let a = played("0 1 2 3");
    let b = played("2 1 0 3");
    assert_eq!(a.played_spots(), b.played_spots());
    assert_eq!(a.our_spots(), b.our_spots());
    assert_eq!(TranspositionTable::key(&a), TranspositionTable::key(&b));
    // Same stones and last move, but after a ban "Second Best!" is not allowed.
    let c = played("0 1 2");
    let d = played("0 1 5 ! 2");
    assert_eq!(c.played_spots(), d.played_spots());
    assert_eq!(c.our_spots(), d.our_spots());
    assert!(c.can_second_best());
    assert!(!d.can_second_best());
    assert_ne!(TranspositionTable::key(&c), TranspositionTable::key(&d));
    // A position with a banned move is not the one without it.
    let e = played("0 !");
    assert_ne!(TranspositionTable::key(&e), TranspositionTable::key(&Position::default()));
}

#[test]
fn mate_scores_are_stored_relative_to_the_position() {
    let mut pos = Position::default();
    pos.parse_and_play_moves(vec!["3".to_string(), "4".to_string()]).unwrap();
    let mut tt = TranspositionTable::default();
    // A win found two plies from the start: mate score 1000 - 5 at ply 2.
    tt.store(&pos, 995, BitboardMove::SecondBest, EntryType::Exact, 3);
    let entry = tt.get(&pos).unwrap();
    assert_eq!(entry.score(2), 995);
    assert_eq!(entry.score(0), 997);
    assert_eq!(entry.entry_type(), EntryType::Exact);
    assert_eq!(entry.ply(), 3);
    tt.store(&pos, -995, BitboardMove::SecondBest, EntryType::LowerBound, 1);
    assert_eq!(tt.get(&pos).unwrap().score(2), -995);
    assert_eq!(tt.get(&pos).unwrap().score(4), -993);
    tt.store(&pos, 17, BitboardMove::SecondBest, EntryType::UpperBound, 1);
    assert_eq!(tt.get(&pos).unwrap().score(100), 17);
}

#[test]
fn table_size_is_the_next_prime() {
    assert_eq!(next_prime(1 << 23), 8388617);
    assert_eq!(TranspositionTable::default().size(), 8388617);
    assert_eq!(next_prime(8), 11);
    assert_eq!(next_prime(13), 13);
}

#[test]
fn trial_division() {
    use_has_factor();
}

fn use_has_factor() {
    assert!(second_best::transposition_table::has_factor(91, 2, 91));
    assert!(!second_best::transposition_table::has_factor(97, 2, 97));
    assert!(!second_best::transposition_table::has_factor(8388617, 2, 8388617));
}
