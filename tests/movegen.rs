use second_best::movegen::MoveGen;
use second_best::position::{BitboardMove, Position};

fn words(s: &str) -> Vec<String> {
    s.split_whitespace().map(|s| s.to_string()).collect()
}

/// A generated move is accepted by the checked form, unless the opponent's
/// alignment leaves no stone move.
fn assert_accepted(pos: &Position, m: BitboardMove) {
    let barred = pos.has_alignment(false) && !pos.can_second_best();
    if m == BitboardMove::SecondBest || !barred {
        let mut copy = pos.clone();
        assert_eq!(copy.try_make_move(m.to_player_move(pos)), Ok(()));
    }
}

fn moves_of(pos: &Position, pv: Option<BitboardMove>) -> Vec<BitboardMove> {
    MoveGen::new(pos, pv).collect_moves()
}

#[test]
fn starting_pos() {
    let mut pos = Position::default();
    pos.make_phase_one_move(0);
    pos.second_best();
    let moves = moves_of(&pos, None);
    assert_eq!(moves.len(), 7);
    for bmove in moves {
        let pmove = bmove.to_player_move(&pos);
        pos.try_make_move(pmove).unwrap();
        pos.unmake_stone_move();
    }
}

#[test]
fn second_phase() {
    let mut pos = Position::default();
    pos.parse_and_play_moves(words("0 0 1 1 2 3 2 3 4 4 0 1 6 6 6 7")).unwrap();
    assert!(pos.is_second_phase());
    // Every move the generator yields is played, unchecked: after an
    // alignment without "Second Best!" left the checked form refuses them;
    // everywhere else each one is accepted.
    let mut nodes = 0;
    for smove in moves_of(&pos, None) {
        nodes += 1;
        assert_accepted(&pos, smove);
        pos.make_move(smove);
        if !pos.has_alignment(true) {
            for smove in moves_of(&pos, None) {
                nodes += 1;
                assert_accepted(&pos, smove);
                pos.make_move(smove);
                if !pos.has_alignment(true) {
                    for smove in moves_of(&pos, None) {
                        nodes += 1;
                        assert_accepted(&pos, smove);
                        pos.make_move(smove);
                        if !pos.has_alignment(true) {
                            for smove in moves_of(&pos, None) {
                                nodes += 1;
                                assert_accepted(&pos, smove);
                                pos.make_move(smove);
                                pos.unmake_move();
                            }
                        }
                        pos.unmake_move();
                    }
                }
                pos.unmake_move();
            }
        }
        pos.unmake_move();
    }
    assert_eq!(nodes, 2770);
}

#[test]
fn second_phase_moves_are_accepted() {
    let mut pos = Position::default();
    pos.parse_and_play_moves(words("0 0 1 1 2 3 2 3 4 4 0 1 6 6 6 7")).unwrap();
    for smove in moves_of(&pos, None) {
        let pmove = smove.to_player_move(&pos);
        assert_eq!(pos.try_make_move(pmove), Ok(()));
        pos.unmake_move();
    }
}

#[test]
fn hint_comes_first_and_only_once() {
    let pos = Position::default();
    let hint = BitboardMove::StoneMove(pos.stone_move(None, 5));
    let moves = moves_of(&pos, Some(hint));
    assert_eq!(moves.len(), 8);
    assert_eq!(moves[0], hint);
    assert_eq!(moves.iter().filter(|m| **m == hint).count(), 1);
}

#[test]
fn second_best_comes_after_the_hint() {
    let mut pos = Position::default();
    pos.make_phase_one_move(2);
    let moves = moves_of(&pos, None);
    assert_eq!(moves[0], BitboardMove::SecondBest);
    assert_eq!(moves.len(), 9);
    // A "Second Best!" hint where it is not allowed is ignored.
    pos.second_best();
    let moves = moves_of(&pos, Some(BitboardMove::SecondBest));
    assert!(!moves.contains(&BitboardMove::SecondBest));
    assert_eq!(moves.len(), 7);
}

#[test]
fn vertical_alignment_first() {
    let mut pos = Position::default();
    pos.parse_and_play_moves(words("4 5 4 5")).unwrap();
    let moves = moves_of(&pos, None);
    // Second Best, then the placement that makes three in stack 4.
    assert_eq!(moves[0], BitboardMove::SecondBest);
    assert_eq!(moves[1], BitboardMove::StoneMove(pos.stone_move(None, 4)));
}

#[test]
fn banned_move_never_generated() {
    let mut pos = Position::default();
    pos.parse_and_play_moves(words("0 1 2 3 4 5 6 7 1 2 3 4 5 6 7 0 1-0 !")).unwrap();
    let banned = pos.banned_move().unwrap();
    let moves = moves_of(&pos, Some(BitboardMove::StoneMove(banned)));
    assert!(!moves.contains(&BitboardMove::StoneMove(banned)));
    assert!(!moves.is_empty());
    let mut first = Position::default();
    first.parse_and_play_moves(words("3 !")).unwrap();
    let banned = first.banned_move().unwrap();
    let moves = moves_of(&first, None);
    assert!(!moves.contains(&BitboardMove::StoneMove(banned)));
    assert_eq!(moves.len(), 7);
}

#[test]
fn moves_are_distinct_and_complete_after_a_ban() {
    let mut pos = Position::default();
    pos.parse_and_play_moves(words("0 0 1 1 2 3 2 3 4 4 0 1 6 6 6 7")).unwrap();
    let first = *moves_of(&pos, None).iter().find(|m| **m != BitboardMove::SecondBest).unwrap();
    pos.try_make_move(first.to_player_move(&pos)).unwrap();
    pos.try_make_move(second_best::position::PlayerMove::SecondBest).unwrap();
    assert!(pos.banned_move().is_some());
    let moves = moves_of(&pos, None);
    for (i, a) in moves.iter().enumerate() {
        for b in &moves[i + 1..] {
            assert_ne!(a, b);
        }
    }
    // Every accepted stone move is generated.
    let mut accepted = 0;
    for from in 0..8 {
        for to in 0..8 {
            let mut copy = pos.clone();
            let pmove = second_best::position::PlayerMove::StoneMove { from: Some(from), to };
            if copy.try_make_move(pmove).is_ok() {
                accepted += 1;
                assert!(moves.contains(&BitboardMove::StoneMove(pos.stone_move(Some(from), to))));
            }
        }
    }
    assert_eq!(accepted, moves.len());
}
