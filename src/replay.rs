//! Playing a game back from its notation gives the same position.
use vstd::prelude::*;
use crate::bitboard::{
    board_ok, column_mask_of, free_spots_of, top_spots_of, to_part, from_part, lemma_xor_cancel,
};
use crate::position::{
    after_second_best, after_stone_move, first_column, lemma_move_text_round_trip, initial_model, legal_stone_move, move_or_zero,
    move_text, parse_move, play_text_moves, played_before, player_move_on, try_move_outcome,
    MoveFailed, PlayerMove, PositionModel, HISTORY_LEN, lemma_legal_stone_move_keeps_board_ok,
    lemma_join_push, ply_words, serialized, words_upto,
};
use crate::notation::{join_words, lemma_decimal_reads_back, is_digit, decimal_of};

verus! {

/// On a sound board the free spots lie above the top spots.
pub proof fn lemma_top_free_disjoint(played: u64, our: u64)
    by (bit_vector)
    requires
        board_ok(played, our),
    ensures
        top_spots_of(played) & free_spots_of(played) == 0,
{
}

/// With the free and top spots apart, a move's "to" part is its free part
/// and its "from" part its top part.
pub proof fn lemma_parts(c1: u64, c2: u64, top: u64, free: u64)
    by (bit_vector)
    requires
        top & free == 0,
    ensures
        ((c1 & free) | (c2 & top)) & top == c2 & top,
        ((c1 & free) | (c2 & top)) & free == c1 & free,
        (c1 & free) & top == 0,
        (c1 & free) & free == c1 & free,
{
}

/// Spots that meet a side's stones are not empty.
pub proof fn lemma_nonzero_part(x: u64, our: u64)
    by (bit_vector)
    ensures
        x & our != 0 ==> x != 0,
{
}

/// Spots of one column meet no other column.
proof fn lemma_columns_apart(k: u64, c: u64, x: u64)
    by (bit_vector)
    requires
        k < 8,
        c < 8,
        c != k,
    ensures
        (column_mask_of(k) & x) & column_mask_of(c) == 0,
{
}

/// Spots of a column are found in that column.
proof fn lemma_column_self(k: u64, x: u64)
    by (bit_vector)
    ensures
        (column_mask_of(k) & x) != 0 ==> (column_mask_of(k) & x) & column_mask_of(k) != 0,
{
}

/// Spots of column `k` are found in column `k`.
pub proof fn lemma_first_column_of_column(k: u64, x: u64, c: nat)
    requires
        k < 8,
        c <= k,
        column_mask_of(k) & x != 0,
    ensures
        first_column(column_mask_of(k) & x, c) == k,
    decreases k - c,
{
    if c < k {
        lemma_columns_apart(k, c as u64, x);
        lemma_first_column_of_column(k, x, c + 1);
    } else {
        lemma_column_self(k, x);
    }
}

/// On a sound board, the stacks read back from an accepted stone move are
/// the stacks it was given by.
pub proof fn lemma_stacks_recovered(q: PositionModel, from: Option<usize>, to: usize, m: u64)
    requires
        board_ok(q.played, q.our),
        q.stone_move_outcome(from, to) == Ok::<u64, MoveFailed>(m),
    ensures
        player_move_on(q.played, m) == (PlayerMove::StoneMove { from, to }),
{
    let played = q.played;
    let top = top_spots_of(played);
    let free = free_spots_of(played);
    lemma_top_free_disjoint(played, q.our);
    match from {
        Some(f) => {
            lemma_parts(column_mask_of(to as u64), column_mask_of(f as u64), top, free);
            lemma_nonzero_part(from_part(played, f as u64), q.our);
            lemma_first_column_of_column(f as u64, top, 0);
            lemma_first_column_of_column(to as u64, free, 0);
        },
        None => {
            lemma_parts(column_mask_of(to as u64), 0, top, free);
            lemma_first_column_of_column(to as u64, free, 0);
        },
    }
}

/// The stones of the side to move before ply `i + 1`.
pub open spec fn our_before(p: PositionModel, i: int) -> u64
    decreases p.num_moves - i,
{
    if i >= p.num_moves {
        p.our
    } else {
        our_before(p, i + 1) ^ played_before(p, i)
    }
}

/// The game after its first `i` plies, before any ban of ply `i + 1`.
pub open spec fn prefix(p: PositionModel, i: int) -> PositionModel {
    PositionModel {
        played: played_before(p, i),
        our: our_before(p, i),
        num_moves: i as nat,
        history: Seq::new(HISTORY_LEN as nat, |j: int| if j <= i { p.history[j] } else { None }),
        banned: Seq::new(HISTORY_LEN as nat, |j: int| if j <= i { p.banned[j] } else { None }),
    }
}

pub open spec fn with_ban(q: PositionModel, i: int, b: Option<u64>) -> PositionModel {
    PositionModel { banned: q.banned.update(i, b), ..q }
}

/// Ply `i` was played by the rules: from a sound board, its ban (if any)
/// and its move were moves that were accepted there.
pub open spec fn ply_ok(p: PositionModel, i: int) -> bool {
    let q = prefix(p, i - 1);
    &&& board_ok(q.played, q.our)
    &&& (p.banned[i] matches Some(b) ==> legal_stone_move(q, b))
    &&& legal_stone_move(with_ban(q, i, p.banned[i]), move_or_zero(p.history[i]))
}

/// A position whose history was played by the rules from the empty board.
pub open spec fn played_by_the_rules(p: PositionModel) -> bool {
    &&& p.wf()
    &&& played_before(p, 0) == 0
    &&& our_before(p, 0) == 0
    &&& board_ok(p.played, p.our)
    &&& forall|i: int| 1 <= i <= p.num_moves ==> #[trigger] ply_ok(p, i)
    &&& (p.banned_move() matches Some(b) ==> legal_stone_move(prefix(p, p.num_moves as int), b))
    &&& (p.banned_move() is Some ==> p.num_moves < 255)
}

/// The notation of ply `i`, word by word: a ban as the banned move and
/// `!`, then the move played.
pub open spec fn ply_tokens(p: PositionModel, i: int) -> Seq<Seq<char>> {
    let before = played_before(p, i - 1);
    let ban = match p.banned[i] {
        Some(b) => seq![move_text(player_move_on(before, b)), seq!['!']],
        None => Seq::empty(),
    };
    if i <= p.num_moves {
        ban.push(move_text(player_move_on(before, move_or_zero(p.history[i]))))
    } else {
        ban
    }
}

/// The words of plies `i..=num_moves + 1`.
pub open spec fn tokens_from(p: PositionModel, i: int) -> Seq<Seq<char>>
    decreases p.num_moves + 2 - i,
{
    if i > p.num_moves + 1 {
        Seq::empty()
    } else {
        ply_tokens(p, i) + tokens_from(p, i + 1)
    }
}

/// Playing words one after the other: the first part, then the rest.
proof fn lemma_play_concat(q: PositionModel, a: Seq<Seq<char>>, b: Seq<Seq<char>>)
    ensures
        play_text_moves(q, a + b) == (match play_text_moves(q, a) {
            (Ok(()), r) => play_text_moves(r, b),
            (Err(e), r) => (Err(e), r),
        }),
    decreases a.len(),
{
    if a.len() == 0 {
        assert(a + b =~= b);
    } else {
        assert((a + b)[0] == a[0]);
        assert((a + b).skip(1) =~= a.skip(1) + b);
        match parse_move(a[0]) {
            Err(e) => {},
            Ok(m) => match try_move_outcome(q, m) {
                Err(e) => {},
                Ok(r) => {
                    lemma_play_concat(r, a.skip(1), b);
                },
            },
        }
    }
}

/// Playing a move and calling "Second Best!" on it leaves the position
/// with that move banned.
proof fn lemma_ban_step(q: PositionModel, b: u64)
    requires
        q.wf(),
        q.num_moves < 255,
        q.banned[(q.num_moves + 1) as int] is None,
    ensures
        after_stone_move(q, b).can_second_best(),
        after_second_best(after_stone_move(q, b)) == with_ban(q, (q.num_moves + 1) as int, Some(b)),
{
    lemma_xor_cancel();
    let q1 = after_stone_move(q, b);
    let q2 = after_second_best(q1);
    assert(q2.history =~= q.history);
    assert(q2.banned =~= q.banned.update((q.num_moves + 1) as int, Some(b)));
}

proof fn lemma_prefix_wf(p: PositionModel, k: int)
    requires
        p.wf(),
        0 <= k <= p.num_moves,
    ensures
        prefix(p, k).wf(),
        prefix(p, k).banned[k + 1] is None,
        k == p.num_moves ==> prefix(p, k) == with_ban(p, k + 1, None),
{
    let q = prefix(p, k);
    if k == p.num_moves {
        let r = with_ban(p, k + 1, None);
        assert(q.history =~= r.history);
        assert(q.banned =~= r.banned);
    }
}

/// Playing the move of ply `k + 1` on the game after `k` plies, with the
/// ban of ply `k + 1`, gives the game after `k + 1` plies.
proof fn lemma_ply_step(p: PositionModel, k: int)
    requires
        p.wf(),
        0 <= k < p.num_moves,
    ensures
        after_stone_move(with_ban(prefix(p, k), k + 1, p.banned[k + 1]), move_or_zero(p.history[k + 1]))
            == prefix(p, k + 1),
{
    lemma_xor_cancel();
    let m = move_or_zero(p.history[k + 1]);
    let q = after_stone_move(with_ban(prefix(p, k), k + 1, p.banned[k + 1]), m);
    let r = prefix(p, k + 1);
    assert(played_before(p, k) == played_before(p, k + 1) ^ m);
    assert(our_before(p, k) == our_before(p, k + 1) ^ played_before(p, k));
    assert(q.played == r.played);
    assert(q.our == (our_before(p, k + 1) ^ played_before(p, k)) ^ played_before(p, k));
    assert(q.our == r.our);
    assert(q.history =~= r.history);
    assert(q.banned =~= r.banned);
}

/// Reading and playing the notation of an accepted stone move plays it.
proof fn lemma_replay_stone_word(q: PositionModel, m: u64)
    requires
        board_ok(q.played, q.our),
        legal_stone_move(q, m),
    ensures
        play_text_moves(q, seq![move_text(player_move_on(q.played, m))]) == (Ok::<(), MoveFailed>(
            (),
        ), after_stone_move(q, m)),
{
    let (from, to) = choose|from: Option<usize>, to: usize| #[trigger] q.stone_move_outcome(from, to)
        == Ok::<u64, MoveFailed>(m);
    lemma_stacks_recovered(q, from, to, m);
    let pm = PlayerMove::StoneMove { from, to };
    lemma_move_text_round_trip(pm);
    let w: Seq<Seq<char>> = seq![move_text(pm)];
    assert(try_move_outcome(q, pm) == Ok::<PositionModel, MoveFailed>(after_stone_move(q, m)));
    assert(w.skip(1) =~= Seq::<Seq<char>>::empty());
    assert(w[0] == move_text(pm));
    assert(play_text_moves(after_stone_move(q, m), w.skip(1)) == (Ok::<(), MoveFailed>(()),
        after_stone_move(q, m)));
    assert(player_move_on(q.played, m) == pm);
    assert(seq![move_text(player_move_on(q.played, m))] == w);
}

/// Reading and playing a move and `!` leaves the game with that move banned.
proof fn lemma_replay_ban(q: PositionModel, b: u64)
    requires
        q.wf(),
        q.num_moves < 255,
        q.banned[(q.num_moves + 1) as int] is None,
        board_ok(q.played, q.our),
        legal_stone_move(q, b),
    ensures
        play_text_moves(q, seq![move_text(player_move_on(q.played, b)), seq!['!']]) == (Ok::<
            (),
            MoveFailed,
        >(()), with_ban(q, (q.num_moves + 1) as int, Some(b))),
{
    lemma_replay_stone_word(q, b);
    lemma_ban_step(q, b);
    let q1 = after_stone_move(q, b);
    let bang: Seq<Seq<char>> = seq![seq!['!']];
    assert(parse_move(seq!['!']) == Ok::<PlayerMove, MoveFailed>(PlayerMove::SecondBest));
    assert(bang.skip(1) =~= Seq::<Seq<char>>::empty());
    assert(bang[0] == seq!['!']);
    assert(play_text_moves(after_second_best(q1), bang.skip(1)) == (Ok::<(), MoveFailed>(()),
        after_second_best(q1)));
    assert(try_move_outcome(q1, PlayerMove::SecondBest) == Ok::<PositionModel, MoveFailed>(
        after_second_best(q1),
    ));
    assert(play_text_moves(q1, bang) == (Ok::<(), MoveFailed>(()), after_second_best(q1)));
    let first: Seq<Seq<char>> = seq![move_text(player_move_on(q.played, b))];
    assert(seq![move_text(player_move_on(q.played, b)), seq!['!']] =~= first + bang);
    lemma_play_concat(q, first, bang);
}

/// Reading and playing the words of a ply gives the game after that ply.
#[verifier::rlimit(40)]
proof fn lemma_replay_ply(p: PositionModel, k: int)
    requires
        played_by_the_rules(p),
        0 <= k <= p.num_moves,
    ensures
        play_text_moves(prefix(p, k), ply_tokens(p, k + 1)) == (Ok::<(), MoveFailed>(()), if k
            < p.num_moves {
            prefix(p, k + 1)
        } else {
            p
        }),
{
    let i = k + 1;
    let q = prefix(p, k);
    let before = played_before(p, k);
    lemma_prefix_wf(p, k);
    let qb = with_ban(q, i, p.banned[i]);
    if k < p.num_moves {
        assert(ply_ok(p, i));
    } else {
        assert(q.played == p.played && q.our == p.our);
    }
    assert(board_ok(q.played, q.our));
    let ban_words: Seq<Seq<char>> = match p.banned[i] {
        Some(b) => seq![move_text(player_move_on(before, b)), seq!['!']],
        None => Seq::empty(),
    };
    assert(play_text_moves(q, ban_words) == (Ok::<(), MoveFailed>(()), qb)) by {
        match p.banned[i] {
            Some(b) => {
                lemma_replay_ban(q, b);
            },
            None => {
                assert(qb.banned =~= q.banned);
            },
        }
    }
    if k < p.num_moves {
        let m = move_or_zero(p.history[i]);
        lemma_replay_stone_word(qb, m);
        lemma_ply_step(p, k);
        let last: Seq<Seq<char>> = seq![move_text(player_move_on(before, m))];
        assert(ply_tokens(p, i) =~= ban_words + last);
        lemma_play_concat(q, ban_words, last);
    } else {
        assert(ply_tokens(p, i) =~= ban_words);
        match p.banned[i] {
            Some(b) => {
                assert(qb.banned =~= p.banned);
                assert(qb.history =~= p.history);
            },
            None => {
                assert(q.banned =~= p.banned);
                assert(q.history =~= p.history);
            },
        }
    }
}

/// Reading and playing the words of plies `k + 1` on, from the game after
/// `k` plies, gives the whole game.
proof fn lemma_replay_from(p: PositionModel, k: int)
    requires
        played_by_the_rules(p),
        0 <= k <= p.num_moves,
    ensures
        play_text_moves(prefix(p, k), tokens_from(p, k + 1)) == (Ok::<(), MoveFailed>(()), p),
    decreases p.num_moves - k,
{
    lemma_replay_ply(p, k);
    assert(tokens_from(p, k + 1) == ply_tokens(p, k + 1) + tokens_from(p, k + 2));
    lemma_play_concat(prefix(p, k), ply_tokens(p, k + 1), tokens_from(p, k + 2));
    if k < p.num_moves {
        lemma_replay_from(p, k + 1);
    } else {
        assert(tokens_from(p, k + 2).len() == 0);
    }
}

/// A game played by the rules, written in notation and read back move by
/// move from the empty board, is the same game: the same bitboards, move
/// counter, history and bans. The notation is these words joined by single
/// spaces, and no word holds a space.
pub proof fn lemma_serialize_round_trip(p: PositionModel)
    requires
        played_by_the_rules(p),
    ensures
        serialized(p) == join_words(tokens_from(p, 1)),
        forall|j: int| 0 <= j < tokens_from(p, 1).len() ==> is_word(#[trigger] tokens_from(p, 1)[j]),
        play_text_moves(initial_model(), tokens_from(p, 1)) == (Ok::<(), MoveFailed>(()), p),
{
    let top = (p.num_moves + 1) as int;
    lemma_tokens_are_words(p, 1);
    lemma_join_match(p, top);
    lemma_upto_from(p, top);
    assert(tokens_from(p, top + 1).len() == 0);
    assert(tokens_upto(p, top) =~= tokens_from(p, 1));
    let q = prefix(p, 0);
    assert(q.history =~= initial_model().history);
    assert(q.banned =~= initial_model().banned);
    assert(q == initial_model());
    lemma_replay_from(p, 0);
}

/// Two games that agree on the board after `kk` plies and on the moves
/// before agree on the board after every earlier ply.
proof fn lemma_before_stable(p: PositionModel, q: PositionModel, kk: int, i: int)
    requires
        0 <= i <= kk,
        kk <= p.num_moves,
        kk <= q.num_moves,
        played_before(p, kk) == played_before(q, kk),
        our_before(p, kk) == our_before(q, kk),
        forall|j: int| 1 <= j <= kk ==> #[trigger] p.history[j] == q.history[j],
    ensures
        played_before(p, i) == played_before(q, i),
        our_before(p, i) == our_before(q, i),
    decreases kk - i,
{
    if i < kk {
        lemma_before_stable(p, q, kk, i + 1);
        assert(p.history[i + 1] == q.history[i + 1]);
    }
}

/// The empty board is played by the rules.
pub proof fn lemma_rules_start()
    ensures
        played_by_the_rules(initial_model()),
{
    let p = initial_model();
    assert(board_ok(0, 0)) by (bit_vector);
    assert(p.banned_move() is None);
}

/// A move that `try_make_move` accepts keeps a game played by the rules.
pub proof fn lemma_rules_kept(p: PositionModel, pm: PlayerMove)
    requires
        played_by_the_rules(p),
        try_move_outcome(p, pm) is Ok,
    ensures
        played_by_the_rules(try_move_outcome(p, pm)->Ok_0),
{
    lemma_xor_cancel();
    let q = try_move_outcome(p, pm)->Ok_0;
    let n = p.num_moves as int;
    match pm {
        PlayerMove::StoneMove { from, to } => {
            let m = p.stone_move_outcome(from, to)->Ok_0;
            assert(q == after_stone_move(p, m));
            assert(played_before(q, n + 1) == q.played);
            assert(q.history[n + 1] == Some(m));
            assert(played_before(q, n) == (q.played ^ m));
            assert(played_before(q, n) == played_before(p, n));
            assert(our_before(q, n + 1) == q.our);
            assert(our_before(q, n) == (q.our ^ played_before(q, n)));
            assert(our_before(p, n) == p.our);
            assert(q.our == (p.our ^ p.played));
            assert(our_before(q, n) == our_before(p, n));
            assert forall|j: int| 1 <= j <= n implies #[trigger] p.history[j] == q.history[j] by {}
            assert forall|i: int| 0 <= i <= n implies prefix(q, i) == prefix(p, i) by {
                lemma_before_stable(p, q, n, i);
                assert(prefix(q, i).history =~= prefix(p, i).history);
                assert(prefix(q, i).banned =~= prefix(p, i).banned);
            }
            lemma_before_stable(p, q, n, 0);
            lemma_legal_stone_move_keeps_board_ok(p, from, to);
            lemma_prefix_wf(p, n);
            assert forall|i: int| 1 <= i <= q.num_moves implies #[trigger] ply_ok(q, i) by {
                assert(prefix(q, i - 1) == prefix(p, i - 1));
                if i <= n {
                    assert(ply_ok(p, i));
                } else {
                    let wb = with_ban(prefix(p, n), n + 1, p.banned[n + 1]);
                    assert(wb.banned =~= p.banned);
                    assert(wb.history =~= p.history);
                    assert(wb == p);
                    assert(p.stone_move_outcome(from, to) == Ok::<u64, MoveFailed>(m));
                    assert(legal_stone_move(p, m));
                }
            }
        },
        PlayerMove::SecondBest => {
            let last = p.last_move();
            assert(q == after_second_best(p));
            assert(ply_ok(p, n));
            assert(played_before(p, n) == p.played);
            assert(played_before(q, n - 1) == q.played);
            assert(move_or_zero(p.history[n]) == last);
            assert(played_before(q, n - 1) == played_before(p, n - 1));
            assert(our_before(p, n - 1) == our_before(p, n) ^ played_before(p, n - 1));
            assert(our_before(q, n - 1) == our_before(p, n - 1));
            assert forall|j: int| 1 <= j <= n - 1 implies #[trigger] p.history[j] == q.history[j] by {}
            assert forall|i: int| 0 <= i <= n - 1 implies prefix(q, i) == prefix(p, i) by {
                lemma_before_stable(p, q, n - 1, i);
                assert(prefix(q, i).history =~= prefix(p, i).history);
                assert(prefix(q, i).banned =~= prefix(p, i).banned);
            }
            lemma_before_stable(p, q, n - 1, 0);
            assert forall|i: int| 1 <= i <= q.num_moves implies #[trigger] ply_ok(q, i) by {
                assert(prefix(q, i - 1) == prefix(p, i - 1));
                assert(ply_ok(p, i));
            }
            let pre = prefix(p, n - 1);
            assert(with_ban(pre, n, p.banned[n]).banned =~= pre.banned);
            assert(with_ban(pre, n, p.banned[n]) == pre);
            assert(q.banned_move() == Some(last));
            assert(legal_stone_move(prefix(q, n - 1), last));
        },
    }
}

/// A word: not empty, without spaces.
pub open spec fn is_word(t: Seq<char>) -> bool {
    t.len() > 0 && forall|j: int| 0 <= j < t.len() ==> t[j] != ' '
}

proof fn lemma_decimal_word(n: nat)
    ensures
        is_word(decimal_of(n)),
{
    lemma_decimal_reads_back(n);
    let d = decimal_of(n);
    assert forall|j: int| 0 <= j < d.len() implies d[j] != ' ' by {
        assert(is_digit(d[j]));
    }
}

proof fn lemma_move_text_word(m: PlayerMove)
    ensures
        is_word(move_text(m)),
{
    match m {
        PlayerMove::SecondBest => {},
        PlayerMove::StoneMove { from: None, to } => lemma_decimal_word(to as nat),
        PlayerMove::StoneMove { from: Some(f), to } => {
            lemma_decimal_word(f as nat);
            lemma_decimal_word(to as nat);
            let a = decimal_of(f as nat);
            let b = decimal_of(to as nat);
            let t = a + seq!['-'] + b;
            assert forall|j: int| 0 <= j < t.len() implies t[j] != ' ' by {
                if j < a.len() {
                    assert(t[j] == a[j]);
                } else if j > a.len() {
                    assert(t[j] == b[j - a.len() - 1]);
                }
            }
        },
    }
}

proof fn lemma_tokens_are_words(p: PositionModel, k: int)
    ensures
        forall|j: int| 0 <= j < tokens_from(p, k).len() ==> is_word(#[trigger] tokens_from(p, k)[j]),
    decreases p.num_moves + 2 - k,
{
    if k <= p.num_moves + 1 {
        lemma_tokens_are_words(p, k + 1);
        let before = played_before(p, k - 1);
        let pt = ply_tokens(p, k);
        assert forall|j: int| 0 <= j < pt.len() implies is_word(#[trigger] pt[j]) by {
            if let Some(b) = p.banned[k] {
                lemma_move_text_word(player_move_on(before, b));
            }
            lemma_move_text_word(player_move_on(before, move_or_zero(p.history[k])));
        }
        let all = tokens_from(p, k);
        let rest = tokens_from(p, k + 1);
        assert(all == pt + rest);
        assert forall|j: int| 0 <= j < all.len() implies is_word(#[trigger] all[j]) by {
            if j < pt.len() {
                assert(all[j] == pt[j]);
            } else {
                assert(all[j] == rest[j - pt.len()]);
            }
        }
    }
}

/// The words of plies `1..=k`.
pub open spec fn tokens_upto(p: PositionModel, k: int) -> Seq<Seq<char>>
    decreases k,
{
    if k <= 0 {
        Seq::empty()
    } else {
        tokens_upto(p, k - 1) + ply_tokens(p, k)
    }
}

proof fn lemma_upto_from(p: PositionModel, k: int)
    requires
        0 <= k <= p.num_moves + 1,
    ensures
        tokens_upto(p, k) + tokens_from(p, k + 1) == tokens_from(p, 1),
    decreases k,
{
    if k == 0 {
        assert(tokens_upto(p, 0) + tokens_from(p, 1) =~= tokens_from(p, 1));
    } else {
        lemma_upto_from(p, k - 1);
        assert(tokens_from(p, k) == ply_tokens(p, k) + tokens_from(p, k + 1));
        assert(tokens_upto(p, k) + tokens_from(p, k + 1) =~= tokens_upto(p, k - 1) + tokens_from(p, k));
    }
}

/// The notation's words and its words split at the ban's space read the
/// same once joined with spaces.
proof fn lemma_join_match(p: PositionModel, k: int)
    requires
        0 <= k,
    ensures
        join_words(words_upto(p, k)) == join_words(tokens_upto(p, k)),
        (words_upto(p, k).len() == 0) == (tokens_upto(p, k).len() == 0),
    decreases k,
{
    if k > 0 {
        lemma_join_match(p, k - 1);
        let w = words_upto(p, k - 1);
        let t = tokens_upto(p, k - 1);
        let before = played_before(p, k - 1);
        let (w1, t1) = match p.banned[k] {
            Some(b) => {
                let tb = move_text(player_move_on(before, b));
                let wb = tb + seq![' ', '!'];
                lemma_join_push(w, wb);
                lemma_join_push(t, tb);
                lemma_join_push(t.push(tb), seq!['!']);
                assert(join_words(w.push(wb)) =~= join_words(t.push(tb).push(seq!['!'])));
                (w.push(wb), t.push(tb).push(seq!['!']))
            },
            None => (w, t),
        };
        if k <= p.num_moves {
            let tm = move_text(player_move_on(before, move_or_zero(p.history[k])));
            lemma_join_push(w1, tm);
            lemma_join_push(t1, tm);
            assert(words_upto(p, k) =~= w1.push(tm));
            assert(tokens_upto(p, k) =~= t1.push(tm));
        } else {
            assert(words_upto(p, k) =~= w1);
            assert(tokens_upto(p, k) =~= t1);
        }
    }
}

} // verus!
