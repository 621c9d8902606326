use second_best::movegen::MoveGen;
use second_best::position::{MoveFailed, PlayerMove, Position, HISTORY_LEN};

fn words(s: &str) -> Vec<String> {
    s.split_whitespace().map(|s| s.to_string()).collect()
}

fn same_tables(a: &Position, b: &Position) -> bool {
    (0..HISTORY_LEN).all(|i| a.history_at(i) == b.history_at(i) && a.banned_at(i) == b.banned_at(i))
}

#[test]
fn invalid_moves() {
    let mut pos = Position::default();
    assert_eq!(
        pos.try_make_move(PlayerMove::StoneMove { from: None, to: Position::NUM_STACKS }),
        Err(MoveFailed::InvalidToSpot)
    );
    for _ in 0..Position::STACK_HEIGHT {
        assert_eq!(pos.try_make_move(PlayerMove::StoneMove { from: None, to: 0 }), Ok(()));
    }
    assert_eq!(
        pos.try_make_move(PlayerMove::StoneMove { from: None, to: 0 }),
        Err(MoveFailed::InvalidToSpot)
    );
    assert_eq!(pos.num_moves(), Position::STACK_HEIGHT);
    'outer: for stack in 1..Position::NUM_STACKS {
        for _ in 0..Position::STACK_HEIGHT {
            if pos.is_second_phase() {
                break 'outer;
            }
            assert_eq!(pos.try_make_move(PlayerMove::StoneMove { from: None, to: stack }), Ok(()));
        }
    }
    // Now in second phase.
    assert_eq!(
        pos.try_make_move(PlayerMove::StoneMove { from: None, to: Position::NUM_STACKS - 1 }),
        Err(MoveFailed::MissingFromSpot)
    );
    assert_eq!(
        pos.try_make_move(PlayerMove::StoneMove {
            from: Some(Position::NUM_STACKS),
            to: Position::NUM_STACKS - 1
        }),
        Err(MoveFailed::InvalidFromSpot)
    );
    assert_eq!(
        pos.try_make_move(PlayerMove::StoneMove { from: Some(0), to: Position::NUM_STACKS - 2 }),
        Err(MoveFailed::InvalidToSpot)
    );
    assert_eq!(
        pos.try_make_move(PlayerMove::StoneMove { from: Some(0), to: Position::NUM_STACKS - 1 }),
        Ok(()),
    );
    pos.second_best();
    assert_eq!(
        pos.try_make_move(PlayerMove::StoneMove { from: Some(0), to: Position::NUM_STACKS - 1 }),
        Err(MoveFailed::MoveBanned),
    );
}

#[test]
fn position_second_best() {
    let mut pos = Position::default();
    assert!(!pos.can_second_best());
    pos.make_phase_one_move(0);
    assert!(pos.can_second_best());
    pos.second_best();
    assert_eq!(pos.num_moves(), 0);
    assert_eq!(
        pos.try_make_move(PlayerMove::StoneMove { from: None, to: 0 }),
        Err(MoveFailed::MoveBanned)
    );
    pos.make_phase_one_move(1);
    assert!(!pos.can_second_best());

    pos.make_phase_one_move(7);
    pos.make_phase_one_move(7);
    assert!(pos.can_second_best());
    pos.second_best();
    // Can't "Second Best!" a "Second Best!"
    assert!(!pos.can_second_best());
}

#[test]
fn parsing_moves() {
    let mut pos = Position::default();
    assert_eq!(pos.parse_and_play_moves(vec!["".to_string()]), Err(MoveFailed::ParseError));
    assert_eq!(pos.parse_and_play_moves(vec!["0".to_string()]), Ok(()));
    assert_eq!(pos.parse_and_play_moves(vec!["-0".to_string()]), Err(MoveFailed::ParseError));
    assert_eq!(pos.parse_and_play_moves(vec!["1-0".to_string()]), Err(MoveFailed::InvalidFromSpot));
    assert_eq!(pos.parse_and_play_moves(vec!["21".to_string()]), Err(MoveFailed::InvalidToSpot));
    assert_eq!(pos.parse_and_play_moves(vec!["!".to_string()]), Ok(()));
}

#[test]
fn alignments() {
    let mut pos = Position::default();
    assert!(!pos.has_alignment(true));
    pos.parse_and_play_moves(words("0 0 0")).unwrap();
    assert!(!pos.has_alignment(true));
    pos.parse_and_play_moves(words("1 2 1 2 1")).unwrap();
    assert!(pos.has_alignment(false));
    pos.second_best();
    pos.parse_and_play_moves(words("2 1 3 7 4 6")).unwrap();
    assert!(pos.has_alignment(false));
}

#[test]
fn game_over() {
    let mut pos = Position::default();
    assert!(!pos.game_over());
    pos.parse_and_play_moves(words("0 1 0 1 0")).unwrap();
    // Can still call second best.
    assert!(!pos.game_over());
    pos.second_best();
    pos.parse_and_play_moves(words("1 0 ! 7 7 ! 0")).unwrap();
    // Can't second best.
    assert!(pos.game_over());
    pos.unmake_stone_move();

    pos.parse_and_play_moves(words("4 7 7 3 5 3 3")).unwrap();
    assert!(!pos.game_over());
    pos.make_phase_one_move(5);
    pos.make_phase_one_move(5);
    pos.make_phase_one_move(4);
    assert!(!pos.game_over());
    pos.try_make_move(PlayerMove::StoneMove { from: Some(7), to: 0 }).unwrap();
    assert!(!pos.game_over());
    pos.second_best();
    pos.try_make_move(PlayerMove::StoneMove { from: Some(0), to: 4 }).unwrap();
    // No legal moves.
    assert!(pos.game_over());
}

#[test]
fn unmake_move() {
    let mut pos = Position::default();
    pos.make_phase_one_move(0);
    pos.make_phase_one_move(0);
    pos.make_phase_one_move(1);
    pos.make_phase_one_move(1);
    assert!(pos.can_second_best());
    pos.second_best();
    assert!(!pos.can_second_best());
    pos.make_phase_one_move(0);
    assert!(!pos.can_second_best());
    pos.unmake_stone_move();
    assert!(!pos.can_second_best());
    pos.make_phase_one_move(3);
    assert!(!pos.can_second_best());
    pos.unmake_stone_move();
    assert!(!pos.can_second_best());
    pos.unmake_stone_move();
    assert!(pos.can_second_best());
    pos.make_phase_one_move(5);
    assert!(pos.can_second_best());
}

#[test]
fn undo_second_best() {
    let mut pos = Position::default();
    pos.make_phase_one_move(0);
    pos.make_phase_one_move(0);
    pos.make_phase_one_move(0);
    pos.second_best();
    assert!(!pos.can_second_best());
    pos.undo_second_best();
    assert!(pos.can_second_best());
}

#[test]
fn serialize() {
    let mut pos = Position::default();
    pos.make_phase_one_move(0);
    pos.make_phase_one_move(0);
    pos.make_phase_one_move(0);
    pos.second_best();
    pos.make_phase_one_move(1);
    pos.make_phase_one_move(1);
    pos.make_phase_one_move(1);
    let moves = pos.clone().serialize();
    let mut pos2 = Position::default();
    pos2.parse_and_play_moves(words(&moves)).unwrap();
    assert_eq!(pos.num_moves(), pos2.num_moves());
    assert_eq!(pos.our_spots(), pos2.our_spots());
    assert_eq!(pos.played_spots(), pos2.played_spots());
    assert!(same_tables(&pos, &pos2));

    let mut pos = Position::default();
    let input_moves =
        "3 1 1 0 6 2 3 7 6 6 7 0 5 7 0 2 5-4 7-3 0-1 3-4 3-4 0-7 4-0 4-3 4-5 7-0 7-3 6-7 ! 6-5 6-7";
    pos.parse_and_play_moves(words(input_moves)).unwrap();
    let moves = pos.clone().serialize();
    assert_eq!(moves, input_moves);
}

#[test]
fn bench_position_round_trip() {
    let input_moves =
        "3 1 1 0 6 2 3 7 6 6 7 0 5 7 0 2 5-4 7-3 0-1 3-4 3-4 0-7 4-0 4-3 4-5 7-0 7-3 6-7 ! 6-5 6-7";
    let mut first = Position::default();
    first.parse_and_play_moves(words(input_moves)).unwrap();
    let mut second = Position::default();
    second.parse_and_play_moves(words(&first.serialize())).unwrap();
    assert_eq!(first.played_spots(), second.played_spots());
    assert_eq!(first.our_spots(), second.our_spots());
    assert_eq!(first.num_moves(), second.num_moves());
    assert!(same_tables(&first, &second));
}

#[test]
fn serialize_keeps_trailing_ban() {
    let mut pos = Position::default();
    pos.parse_and_play_moves(words("2 5 !")).unwrap();
    let text = pos.serialize();
    assert_eq!(text, "2 5 !");
    let mut again = Position::default();
    again.parse_and_play_moves(words(&text)).unwrap();
    assert_eq!(again.banned_move(), pos.banned_move());
    assert!(same_tables(&pos, &again));
}

#[test]
fn banned_move_respected() {
    let mut pos = Position::default();
    pos.parse_and_play_moves(words("0 !")).unwrap();
    assert_eq!(
        pos.try_make_move(PlayerMove::StoneMove { from: None, to: 0 }),
        Err(MoveFailed::MoveBanned)
    );
    for to in 1..Position::NUM_STACKS {
        assert_eq!(pos.try_make_move(PlayerMove::StoneMove { from: None, to }), Ok(()));
        pos.unmake_move();
    }
}

#[test]
fn make_unmake_restores_everything() {
    let mut pos = Position::default();
    pos.parse_and_play_moves(words("0 0 1 1 2 3 2 3 4 4 0 1 6 6 6 7")).unwrap();
    let before = pos.clone();
    for bmove in MoveGen::new(&pos, None).collect_moves() {
        pos.make_move(bmove);
        pos.unmake_move();
        assert_eq!(pos.played_spots(), before.played_spots());
        assert_eq!(pos.our_spots(), before.our_spots());
        assert_eq!(pos.num_moves(), before.num_moves());
        assert!(same_tables(&pos, &before));
    }
    // And through "Second Best!".
    pos.second_best();
    pos.unmake_move();
    assert_eq!(pos.played_spots(), before.played_spots());
    assert!(same_tables(&pos, &before));
}

#[test]
fn guard_bits_stay_clear() {
    let guard: u64 = 0x8888_8888_8888_8888;
    let mut pos = Position::default();
    for m in words("3 1 1 0 6 2 3 7 6 6 7 0 5 7 0 2 5-4 7-3 0-1 3-4 3-4 0-7 4-0 4-3 4-5 7-0 7-3 6-7 ! 6-5 6-7") {
        pos.parse_and_play_moves(vec![m]).unwrap();
        assert_eq!(pos.played_spots() & guard, 0);
        assert_eq!(pos.our_spots() & !pos.played_spots(), 0);
        assert_eq!(pos.played_spots() >> 32, pos.played_spots() & 0xFFFF_FFFF);
    }
}

#[test]
fn alignment_symmetry_on_a_board() {
    let mut pos = Position::default();
    pos.parse_and_play_moves(words("1 2 1 2 1")).unwrap();
    // The opponent (black) has three in stack 1; after black's move it was
    // black's own alignment.
    assert!(pos.has_alignment(false));
    assert!(!pos.has_alignment(true));
    pos.second_best();
    pos.undo_second_best();
    assert!(pos.has_alignment(false));
}

#[test]
fn free_and_top_spots() {
    let mut pos = Position::default();
    assert_eq!(pos.free_spots(), 0x1111_1111_1111_1111);
    pos.parse_and_play_moves(words("0 0 1")).unwrap();
    // Stack 0 holds two stones, stack 1 one.
    assert_eq!(pos.played_spots(), 0x0000_0013_0000_0013);
    assert_eq!(pos.free_spots(), 0x1111_1124_1111_1124);
    assert_eq!(pos.top_spots(), 0x0000_0012_0000_0012);
    assert_eq!(Position::column_mask(1), 0x0000_0070_0000_0070);
    assert_eq!(Position::column_mask(9), Position::column_mask(1));
}

#[test]
fn move_notation() {
    assert_eq!(PlayerMove::from("!".to_string()), Ok(PlayerMove::SecondBest));
    assert_eq!(PlayerMove::from("7".to_string()), Ok(PlayerMove::StoneMove { from: None, to: 7 }));
    assert_eq!(PlayerMove::from("+7".to_string()), Ok(PlayerMove::StoneMove { from: None, to: 7 }));
    assert_eq!(
        PlayerMove::from("12-3".to_string()),
        Ok(PlayerMove::StoneMove { from: Some(12), to: 3 })
    );
    assert_eq!(PlayerMove::from("1-2-3".to_string()), Err(MoveFailed::ParseError));
    assert_eq!(PlayerMove::from("3-".to_string()), Err(MoveFailed::ParseError));
    assert_eq!(PlayerMove::from("a".to_string()), Err(MoveFailed::ParseError));
    assert_eq!(PlayerMove::from("!!".to_string()), Err(MoveFailed::ParseError));
    assert_eq!(
        PlayerMove::from("99999999999999999999999".to_string()),
        Err(MoveFailed::ParseError)
    );
    assert_eq!(PlayerMove::StoneMove { from: Some(10), to: 3 }.to_string(), "10-3");
    assert_eq!(PlayerMove::StoneMove { from: None, to: 0 }.to_string(), "0");
    assert_eq!(PlayerMove::SecondBest.to_string(), "!");
}

#[test]
fn try_make_move_errors() {
    let mut pos = Position::default();
    assert_eq!(pos.try_make_move(PlayerMove::SecondBest), Err(MoveFailed::InvalidSecondBest));
    assert_eq!(
        pos.try_make_move(PlayerMove::StoneMove { from: Some(1), to: 2 }),
        Err(MoveFailed::InvalidFromSpot)
    );
    pos.parse_and_play_moves(words("0 1 2 3 4 5 6 7 1 2 3 4 5 6 7 0")).unwrap();
    assert_eq!(
        pos.try_make_move(PlayerMove::StoneMove { from: Some(3), to: 3 }),
        Err(MoveFailed::SameFromAndTo)
    );
    assert_eq!(
        pos.try_make_move(PlayerMove::StoneMove { from: Some(0), to: 9 }),
        Err(MoveFailed::InvalidToSpot)
    );
    // The opponent has three in a stack, but "Second Best!" is still possible.
    let mut saved = Position::default();
    saved.parse_and_play_moves(words("0 1 0 1 0")).unwrap();
    assert_eq!(saved.try_make_move(PlayerMove::SecondBest), Ok(()));
    // Here it is not.
    let mut lost = Position::default();
    lost.parse_and_play_moves(words("0 1 0 1 0 ! 1 0 ! 7 7 ! 0")).unwrap();
    assert_eq!(
        lost.try_make_move(PlayerMove::StoneMove { from: None, to: 3 }),
        Err(MoveFailed::PositionWinning)
    );
    assert_eq!(lost.try_make_move(PlayerMove::SecondBest), Err(MoveFailed::InvalidSecondBest));
}

#[test]
fn board_drawing() {
    let mut pos = Position::default();
    pos.parse_and_play_moves(words("0 4")).unwrap();
    let text = pos.board_string();
    let lines: Vec<&str> = text.lines().collect();
    assert_eq!(lines.len(), 9);
    // Black (X) is to move: stack 0 holds its stone, stack 4 the other one.
    assert_eq!(lines[2], "    .   O   .     ");
    assert_eq!(lines[6], "    .   X   .     ");
    assert_eq!(lines[4], ". . .       . . . ");
    let bb = Position::bitboard_string(pos.played_spots());
    // Stones on the bottom of stacks 0 and 4, in both copies.
    assert_eq!(bb, "................\n................\n................\nx...x...x...x...\n\n");
}

#[test]
fn help_texts() {
    assert_eq!(MoveFailed::MoveBanned.help_text(), "The given move can not be played anymore, since \"Second Best!\" was called.");
    assert_eq!(MoveFailed::SameFromAndTo.help_text(), "The \"from\" and \"to\" spot in the given move are the same.");
}
