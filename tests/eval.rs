use second_best::bench::next_rand;
use second_best::eval::{decode_eval, explain_eval, loss_score, static_eval, win_score, ExplainableEval, LOSS, WIN};
use second_best::position::{Color, Position};

#[test]
fn scores_of_mates() {
    assert_eq!(loss_score(7), LOSS + 7);
    assert_eq!(win_score(7), WIN - 7);
    assert_eq!(decode_eval(-990, 4), ExplainableEval::Loss(6));
    assert_eq!(decode_eval(990, 4), ExplainableEval::Win(6));
    assert_eq!(decode_eval(3, 4), ExplainableEval::Undetermined(3));
    assert_eq!(decode_eval(490, 4), ExplainableEval::Undetermined(490));
    assert_eq!(decode_eval(-490, 4), ExplainableEval::Undetermined(-490));
}

#[test]
fn explanations() {
    assert_eq!(explain_eval(Color::Black, 990, 4), "Position is winning:\nX can win in 6 move(s)");
    assert_eq!(explain_eval(Color::Black, -990, 4), "Position is lost:\nO can win in 6 move(s)");
    assert_eq!(
        explain_eval(Color::White, -12, 4),
        "Result of the position is undetermined.\nBest score for (O) is -12 (Higher is better)"
    );
}

#[test]
fn static_evaluation() {
    let mut pos = Position::default();
    assert_eq!(static_eval(&pos), 0);
    let moves = ["0", "1", "2"];
    pos.parse_and_play_moves(moves.iter().map(|s| s.to_string()).collect()).unwrap();
    // White to move: black tops two stacks, white one.
    assert_eq!(static_eval(&pos), -1);
    pos.parse_and_play_moves(vec!["4".to_string()]).unwrap();
    // Black to move: two stacks each.
    assert_eq!(static_eval(&pos), 0);
    let mut lost = Position::default();
    lost.parse_and_play_moves(["0", "1", "0", "1", "0"].iter().map(|s| s.to_string()).collect())
        .unwrap();
    // Black tops stacks 0, white stack 1; black has an alignment.
    assert_eq!(static_eval(&lost), -10);
}

#[test]
fn pseudo_random_numbers() {
    let (n, seed) = next_rand(1);
    assert_eq!(seed, (1103515245 + 12345) % (1 << 31));
    assert_eq!(n, seed >> 4);
    let (_, seed2) = next_rand(seed);
    assert_eq!(seed2, (1103515245 * seed + 12345) % (1 << 31));
}
