//! The position: two bitboards, the move history and the "Second Best!" bans.
use vstd::prelude::*;
use crate::bitboard::{
    Bitboard, BOTTOM, BOTTOM_FOUR, column_mask_of, column_bottom_of, free_spots_of, top_spots_of,
    stones_of, controlled_stacks_of, controlled_columns_of, from_spots_of, free_columns_of,
    vertical_alignment_spots_of, three_in_column, four_window, four_at, has_alignment_of, board_ok,
    to_part, from_part, stone_move_of, lemma_xor_cancel, lemma_placement_keeps_board_ok,
    lemma_shift_keeps_board_ok,
};
use crate::notation::{
    decimal_of, parse_number, first_dash, join_words, push_decimal, parse_number_in,
    lemma_decimal_reads_back, lemma_no_dash_in_digits, lemma_dash_after_digits, lemma_no_dash_from,
    is_digit,
};

verus! {

/// Length of the history and ban tables: index `i` is ply `i`, and the ban
/// of the ply after the last one needs a slot as well.
pub const HISTORY_LEN: usize = 257;

/// Two colors; black moves first.
#[derive(Debug, Clone, Copy, PartialEq, Eq, Structural)]
pub enum Color {
    Black,
    White,
}

impl Color {
    pub open spec fn other_spec(self) -> Color {
        match self {
            Color::Black => Color::White,
            Color::White => Color::Black,
        }
    }

    pub open spec fn symbol_spec(self) -> Seq<char> {
        match self {
            Color::Black => seq!['X'],
            Color::White => seq!['O'],
        }
    }

    /// The opposite color.
    pub fn other(&self) -> (r: Self)
        ensures
            r == self.other_spec(),
    {
        match self {
            Color::Black => Color::White,
            Color::White => Color::Black,
        }
    }

    /// The symbol of the color on a printed board.
    pub fn symbol(&self) -> (r: &'static str)
        ensures
            r@ == self.symbol_spec(),
    {
        proof {
            reveal_strlit("X");
            reveal_strlit("O");
        }
        match self {
            Color::Black => "X",
            Color::White => "O",
        }
    }
}

/// The state of the game for the side to move.
#[derive(Debug, Clone, Copy, PartialEq, Eq, Structural)]
pub enum GameStatus {
    /// The side to move has won.
    Win,
    /// The side to move has lost.
    Loss,
    /// The game goes on.
    OnGoing,
}

/// A move on the bitboards: "Second Best!", or the XOR-delta of a stone move
/// (the spot it goes to and, in the second phase, the spot it leaves).
#[derive(Debug, Clone, Copy, PartialEq, Eq, Structural)]
pub enum BitboardMove {
    SecondBest,
    StoneMove(Bitboard),
}

/// A move as a player writes it: "Second Best!", or a stone moved onto stack
/// `to`, taken from stack `from` in the second phase.
#[derive(Debug, Clone, Copy, PartialEq, Eq, Structural)]
pub enum PlayerMove {
    SecondBest,
    StoneMove { from: Option<usize>, to: usize },
}

/// Why a move was refused.
#[derive(Debug, Clone, Copy, PartialEq, Eq, Structural)]
pub enum MoveFailed {
    /// In the second phase a stone move needs a "from" stack.
    MissingFromSpot,
    /// The "from" stack is out of range, not topped by the mover, or given in the first phase.
    InvalidFromSpot,
    /// The "to" stack is out of range, full, or not next to or opposite the "from" stack.
    InvalidToSpot,
    /// The move was banned by a "Second Best!" call.
    MoveBanned,
    /// "Second Best!" is not allowed here.
    InvalidSecondBest,
    /// The "from" and "to" stacks are the same.
    SameFromAndTo,
    /// The text is not a move.
    ParseError,
    /// The opponent has an alignment and the side to move cannot call "Second Best!".
    PositionWinning,
    /// A game holds at most 255 stone moves.
    TooManyMoves,
}

/// The mathematical content of a position.
pub struct PositionModel {
    pub played: u64,
    pub our: u64,
    pub num_moves: nat,
    /// `history[i]` is the stone move of ply `i` (1-based).
    pub history: Seq<Option<u64>>,
    /// `banned[i]` is the move banned at the start of ply `i`.
    pub banned: Seq<Option<u64>>,
}

pub open spec fn opt_u64(o: Option<usize>) -> Option<u64> {
    match o {
        Some(v) => Some(v as u64),
        None => None,
    }
}

/// Stack `to` is next to or opposite stack `from` on the circle.
pub open spec fn adjacent(from: nat, to: nat) -> bool {
    (from + 1) % 8 == to || (from + 4) % 8 == to || (from + 7) % 8 == to
}

impl PositionModel {
    pub open spec fn wf(self) -> bool {
        &&& self.history.len() == HISTORY_LEN
        &&& self.banned.len() == HISTORY_LEN
        &&& self.num_moves <= 255
        &&& self.history[0] is None
        &&& self.banned[0] is None
        &&& forall|i: int| 1 <= i <= self.num_moves ==> #[trigger] self.history[i] is Some
        &&& forall|i: int| self.num_moves < i < HISTORY_LEN ==> #[trigger] self.history[i] is None
        &&& forall|i: int| self.num_moves + 1 < i < HISTORY_LEN ==> #[trigger] self.banned[i] is None
    }

    pub open spec fn stones(self, us: bool) -> u64 {
        stones_of(self.played, self.our, us)
    }

    pub open spec fn free_spots(self) -> u64 {
        free_spots_of(self.played)
    }

    pub open spec fn has_alignment(self, us: bool) -> bool {
        has_alignment_of(self.played, self.stones(us))
    }

    pub open spec fn is_second_phase(self) -> bool {
        self.num_moves >= 16
    }

    /// The move banned for the side to move, if "Second Best!" was just called.
    pub open spec fn banned_move(self) -> Option<u64> {
        self.banned[(self.num_moves + 1) as int]
    }

    pub open spec fn can_second_best(self) -> bool {
        &&& self.num_moves > 0
        &&& self.banned[self.num_moves as int] is None
        &&& self.banned[(self.num_moves + 1) as int] is None
    }

    /// The last stone move played, counting one just taken back by
    /// "Second Best!" (which is then the banned move).
    pub open spec fn last_stone_move(self) -> Option<u64> {
        match self.banned_move() {
            Some(b) => Some(b),
            None => self.history[self.num_moves as int],
        }
    }

    /// The last stone move on the board.
    pub open spec fn last_move(self) -> u64 {
        self.history[self.num_moves as int]->0
    }

    pub open spec fn stone_move(self, from: Option<usize>, to: usize) -> u64 {
        stone_move_of(self.played, opt_u64(from), to as u64)
    }

    /// From stack `from` the side to move can move a stone somewhere.
    pub open spec fn has_move_from(self, from: u64) -> bool {
        let free = free_columns_of(self.played);
        &&& controlled_stacks_of(self.played, self.our) & column_bottom_of(from) != 0
        &&& {
            ||| free & column_bottom_of(((from + 1) % 8) as u64) != 0
            ||| free & column_bottom_of(((from + 7) % 8) as u64) != 0
            ||| free & column_bottom_of(((from + 4) % 8) as u64) != 0
        }
    }

    /// The side to move has lost: it cannot call "Second Best!", and either
    /// the opponent has an alignment or, in the second phase, it has no move.
    pub open spec fn is_lost(self) -> bool {
        &&& !self.can_second_best()
        &&& {
            ||| self.has_alignment(false)
            ||| (self.is_second_phase() && !exists|f: u64| f < 8 && #[trigger] self.has_move_from(f))
        }
    }

    /// What a stone move given by stacks leads to: the bitboard move, or why it is refused.
    pub open spec fn stone_move_outcome(self, from: Option<usize>, to: usize) -> Result<u64, MoveFailed> {
        if self.num_moves >= 255 {
            Err(MoveFailed::TooManyMoves)
        } else if self.has_alignment(false) && !self.can_second_best() {
            Err(MoveFailed::PositionWinning)
        } else if self.is_second_phase() {
            match from {
                None => Err(MoveFailed::MissingFromSpot),
                Some(f) => {
                    if f >= 8 {
                        Err(MoveFailed::InvalidFromSpot)
                    } else if to >= 8 {
                        Err(MoveFailed::InvalidToSpot)
                    } else if to == f {
                        Err(MoveFailed::SameFromAndTo)
                    } else if from_part(self.played, f as u64) & self.our == 0 {
                        Err(MoveFailed::InvalidFromSpot)
                    } else if !adjacent(f as nat, to as nat) || to_part(self.played, to as u64) == 0 {
                        Err(MoveFailed::InvalidToSpot)
                    } else if self.banned_move() == Some(self.stone_move(from, to)) {
                        Err(MoveFailed::MoveBanned)
                    } else {
                        Ok(self.stone_move(from, to))
                    }
                },
            }
        } else if from is Some {
            Err(MoveFailed::InvalidFromSpot)
        } else if to >= 8 {
            Err(MoveFailed::InvalidToSpot)
        } else if to_part(self.played, to as u64) == 0 {
            Err(MoveFailed::InvalidToSpot)
        } else if self.banned_move() == Some(self.stone_move(None, to)) {
            Err(MoveFailed::MoveBanned)
        } else {
            Ok(self.stone_move(None, to))
        }
    }
}

/// A stone move that `try_make_move` accepts here, given by some stacks.
pub open spec fn legal_stone_move(p: PositionModel, m: u64) -> bool {
    exists|from: Option<usize>, to: usize| #[trigger] p.stone_move_outcome(from, to) == Ok::<u64, MoveFailed>(m)
}

/// No stone move is allowed: the move counter is full, or the opponent has
/// an alignment and "Second Best!" cannot undo it.
pub open spec fn stone_moves_barred(p: PositionModel) -> bool {
    p.num_moves >= 255 || (p.has_alignment(false) && !p.can_second_best())
}

/// The position after the stone move `m`: the sides swap and `m` is recorded.
pub open spec fn after_stone_move(p: PositionModel, m: u64) -> PositionModel {
    PositionModel {
        played: p.played ^ m,
        our: p.our ^ p.played,
        num_moves: p.num_moves + 1,
        history: p.history.update((p.num_moves + 1) as int, Some(m)),
        banned: p.banned,
    }
}

/// The position after taking back the last stone move.
pub open spec fn after_unmake_stone_move(p: PositionModel) -> PositionModel {
    let played = p.played ^ p.last_move();
    PositionModel {
        played,
        our: p.our ^ played,
        num_moves: (p.num_moves - 1) as nat,
        history: p.history.update(p.num_moves as int, None),
        banned: p.banned.update((p.num_moves + 1) as int, None),
    }
}

/// The position after "Second Best!": the last stone move is taken back and banned.
pub open spec fn after_second_best(p: PositionModel) -> PositionModel {
    let q = after_unmake_stone_move(p);
    PositionModel { banned: q.banned.update((q.num_moves + 1) as int, Some(p.last_move())), ..q }
}

/// The position after undoing "Second Best!": the banned move is played again.
pub open spec fn after_undo_second_best(p: PositionModel) -> PositionModel {
    let b = p.banned_move()->0;
    after_stone_move(PositionModel { banned: p.banned.update((p.num_moves + 1) as int, None), ..p }, b)
}

pub open spec fn after_move(p: PositionModel, m: BitboardMove) -> PositionModel {
    match m {
        BitboardMove::SecondBest => after_second_best(p),
        BitboardMove::StoneMove(s) => after_stone_move(p, s),
    }
}

/// The position after taking back the last move, stone move or "Second Best!".
pub open spec fn after_unmake_move(p: PositionModel) -> PositionModel {
    if p.banned_move() is Some {
        after_undo_second_best(p)
    } else {
        after_unmake_stone_move(p)
    }
}

/// A move that may be made here: "Second Best!" where it is allowed, or any
/// stone move while the move counter has room.
pub open spec fn move_allowed(p: PositionModel, m: BitboardMove) -> bool {
    match m {
        BitboardMove::SecondBest => p.can_second_best(),
        BitboardMove::StoneMove(_) => p.num_moves < 255,
    }
}

/// The first of the stacks `c..8` with a spot in `bb`, or 8 if there is none.
pub open spec fn first_column(bb: u64, c: nat) -> nat
    decreases 8 - c,
{
    if c >= 8 {
        8
    } else if bb & column_mask_of(c as u64) != 0 {
        c
    } else {
        first_column(bb, c + 1)
    }
}

/// The stacks of the stone move `smove` on a board with the given played
/// spots: its spot on the top of a stack is the "from" stack, its free spot
/// the "to" stack.
pub open spec fn player_move_on(played: u64, smove: u64) -> PlayerMove {
    let from_spot = smove & top_spots_of(played);
    let to = first_column(smove & free_spots_of(played), 0) as usize;
    if from_spot == 0 {
        PlayerMove::StoneMove { from: None, to }
    } else {
        PlayerMove::StoneMove { from: Some(first_column(from_spot, 0) as usize), to }
    }
}

/// A move in notation: `!`, `to`, or `from-to`.
pub open spec fn move_text(m: PlayerMove) -> Seq<char> {
    match m {
        PlayerMove::SecondBest => seq!['!'],
        PlayerMove::StoneMove { from: None, to } => decimal_of(to as nat),
        PlayerMove::StoneMove { from: Some(f), to } => decimal_of(f as nat) + seq!['-'] + decimal_of(
            to as nat,
        ),
    }
}

/// Read a move in notation: `!`, one number, or two numbers joined by `-`.
pub open spec fn parse_move(s: Seq<char>) -> Result<PlayerMove, MoveFailed> {
    let d = first_dash(s, 0);
    if s == seq!['!'] {
        Ok(PlayerMove::SecondBest)
    } else if d >= s.len() {
        match parse_number(s) {
            Some(to) => Ok(PlayerMove::StoneMove { from: None, to: to as usize }),
            None => Err(MoveFailed::ParseError),
        }
    } else if first_dash(s, d + 1) < s.len() {
        Err(MoveFailed::ParseError)
    } else {
        match (parse_number(s.subrange(0, d)), parse_number(s.subrange(d + 1, s.len() as int))) {
            (Some(f), Some(to)) => Ok(PlayerMove::StoneMove { from: Some(f as usize), to: to as usize }),
            _ => Err(MoveFailed::ParseError),
        }
    }
}

/// What `try_make_move` does: the new position, or why the move is refused.
pub open spec fn try_move_outcome(p: PositionModel, m: PlayerMove) -> Result<PositionModel, MoveFailed> {
    match m {
        PlayerMove::SecondBest => if p.can_second_best() {
            Ok(after_second_best(p))
        } else {
            Err(MoveFailed::InvalidSecondBest)
        },
        PlayerMove::StoneMove { from, to } => match p.stone_move_outcome(from, to) {
            Ok(s) => Ok(after_stone_move(p, s)),
            Err(e) => Err(e),
        },
    }
}

/// Playing moves in notation one after the other, stopping at the first
/// that cannot be read or made: the outcome and the position reached.
pub open spec fn play_text_moves(p: PositionModel, ms: Seq<Seq<char>>) -> (Result<(), MoveFailed>, PositionModel)
    decreases ms.len(),
{
    if ms.len() == 0 {
        (Ok(()), p)
    } else {
        match parse_move(ms[0]) {
            Err(e) => (Err(e), p),
            Ok(m) => match try_move_outcome(p, m) {
                Err(e) => (Err(e), p),
                Ok(q) => play_text_moves(q, ms.skip(1)),
            },
        }
    }
}

pub open spec fn move_or_zero(o: Option<u64>) -> u64 {
    match o {
        Some(m) => m,
        None => 0,
    }
}

/// The played spots before ply `i + 1`, found by taking back the later moves.
pub open spec fn played_before(p: PositionModel, i: int) -> u64
    decreases p.num_moves - i,
{
    if i >= p.num_moves {
        p.played
    } else {
        played_before(p, i + 1) ^ move_or_zero(p.history[i + 1])
    }
}

/// The words that ply `i` adds to the notation of a game: the banned move
/// followed by `!` if the ply started with a ban, then the move played.
pub open spec fn ply_words(p: PositionModel, i: int) -> Seq<Seq<char>> {
    let before = played_before(p, i - 1);
    let ban = match p.banned[i] {
        Some(b) => seq![move_text(player_move_on(before, b)) + seq![' ', '!']],
        None => Seq::empty(),
    };
    if i <= p.num_moves {
        ban.push(move_text(player_move_on(before, move_or_zero(p.history[i]))))
    } else {
        ban
    }
}

/// The words of plies `1..=k`.
pub open spec fn words_upto(p: PositionModel, k: int) -> Seq<Seq<char>>
    decreases k,
{
    if k <= 0 {
        Seq::empty()
    } else {
        words_upto(p, k - 1) + ply_words(p, k)
    }
}

/// The notation of a game: every ply, including a ban on the side to move.
pub open spec fn serialized(p: PositionModel) -> Seq<char> {
    join_words(words_upto(p, (p.num_moves + 1) as int))
}

/// Joining one more word adds a space and the word, unless it is the first.
pub proof fn lemma_join_push(ws: Seq<Seq<char>>, w: Seq<char>)
    ensures
        join_words(ws.push(w)) == (if ws.len() == 0 {
            w
        } else {
            join_words(ws) + seq![' '] + w
        }),
{
    assert(ws.push(w).drop_last() =~= ws);
}

/// Append a word, with a space before it unless it is the first one.
fn push_word(s: &mut String, count: usize, w: &str, Ghost(ws): Ghost<Seq<Seq<char>>>)
    requires
        old(s)@ == join_words(ws),
        count == ws.len(),
    ensures
        final(s)@ == join_words(ws.push(w@)),
{
    proof {
        lemma_join_push(ws, w@);
        reveal_strlit(" ");
    }
    if count > 0 {
        s.append(" ");
    }
    s.append(w);
}

/// The first stack with a spot in `bb`, or 8 if there is none.
fn column_of_bit(bb: Bitboard) -> (r: usize)
    ensures
        r == first_column(bb, 0),
{
    let mut col: usize = 0;
    while col < Position::NUM_STACKS
        invariant
            col <= 8,
            first_column(bb, 0) == first_column(bb, col as nat),
        decreases 8 - col,
    {
        if bb & Position::column_mask(col) != 0 {
            return col;
        }
        col = col + 1;
    }
    col
}

/// The stacks of a stone move on a board with the given played spots.
fn player_move_on_board(played: Bitboard, smove: Bitboard) -> (r: PlayerMove)
    ensures
        r == player_move_on(played, smove),
{
    let top = played ^ ((played >> 1u64) & played);
    let free = ((BOTTOM as u128) + (played as u128)) as u64;
    let from_spot = smove & top;
    let to = column_of_bit(smove & free);
    if from_spot == 0 {
        PlayerMove::StoneMove { from: None, to }
    } else {
        PlayerMove::StoneMove { from: Some(column_of_bit(from_spot)), to }
    }
}

/// The index of the first `-` in `s` at or after `i`, or the length.
fn find_dash(s: &str, i: usize, len: usize) -> (r: usize)
    requires
        len == s@.len(),
        i <= len,
    ensures
        r == first_dash(s@, i as int),
{
    let mut j = i;
    while j < len
        invariant
            i <= j <= len,
            len == s@.len(),
            first_dash(s@, i as int) == first_dash(s@, j as int),
        decreases len - j,
    {
        if s.get_char(j) == '-' {
            return j;
        }
        j = j + 1;
    }
    j
}

/// Read a move in notation.
fn parse_move_str(s: &str) -> (r: Result<PlayerMove, MoveFailed>)
    ensures
        r == parse_move(s@),
{
    let len = s.unicode_len();
    if len == 1 && s.get_char(0) == '!' {
        assert(s@ =~= seq!['!']);
        return Ok(PlayerMove::SecondBest);
    }
    assert(s@ != seq!['!']) by {
        if s@ == seq!['!'] {
            assert(s@.len() == 1 && s@[0] == '!');
        }
    }
    let d = find_dash(s, 0, len);
    if d >= len {
        assert(s@.subrange(0, len as int) =~= s@);
        return match parse_number_in(s, 0, len) {
            Some(to) => Ok(PlayerMove::StoneMove { from: None, to }),
            None => Err(MoveFailed::ParseError),
        };
    }
    let e = find_dash(s, d + 1, len);
    if e < len {
        return Err(MoveFailed::ParseError);
    }
    let from = parse_number_in(s, 0, d);
    let to = parse_number_in(s, d + 1, len);
    match (from, to) {
        (Some(f), Some(t)) => Ok(PlayerMove::StoneMove { from: Some(f), to: t }),
        _ => Err(MoveFailed::ParseError),
    }
}

/// Append a move in notation.
fn push_move_text(s: &mut String, m: PlayerMove)
    ensures
        final(s)@ == old(s)@ + move_text(m),
{
    proof {
        reveal_strlit("!");
        reveal_strlit("-");
    }
    match m {
        PlayerMove::SecondBest => s.append("!"),
        PlayerMove::StoneMove { from, to } => {
            match from {
                Some(f) => {
                    push_decimal(s, f);
                    s.append("-");
                },
                None => {},
            }
            push_decimal(s, to);
        },
    }
    assert(final(s)@ =~= old(s)@ + move_text(m));
}

impl PlayerMove {
    /// The bitboard form of a move on the given position.
    pub fn to_bitboard_move(self, pos: &Position) -> (r: BitboardMove)
        requires
            self matches PlayerMove::StoneMove { from, to } ==> to < 8 && (from matches Some(f)
                ==> f < 8),
        ensures
            r == (match self {
                PlayerMove::SecondBest => BitboardMove::SecondBest,
                PlayerMove::StoneMove { from, to } => BitboardMove::StoneMove(
                    pos@.stone_move(from, to),
                ),
            }),
    {
        match self {
            PlayerMove::SecondBest => BitboardMove::SecondBest,
            PlayerMove::StoneMove { from, to } => BitboardMove::StoneMove(pos.stone_move(from, to)),
        }
    }

    /// Read a move in notation: `!`, a stack, or two stacks joined by `-`.
    pub fn from(smove: String) -> (r: Result<Self, MoveFailed>)
        ensures
            r == parse_move(smove@),
    {
        parse_move_str(smove.as_str())
    }

    /// The move in notation.
    pub fn to_string(&self) -> (r: String)
        ensures
            r@ == move_text(*self),
    {
        let mut s = String::new();
        push_move_text(&mut s, *self);
        s
    }
}

impl BitboardMove {
    /// The move with its stacks, on the given position.
    pub fn to_player_move(self, pos: &Position) -> (r: PlayerMove)
        ensures
            r == (match self {
                BitboardMove::SecondBest => PlayerMove::SecondBest,
                BitboardMove::StoneMove(smove) => player_move_on(pos@.played, smove),
            }),
    {
        match self {
            BitboardMove::SecondBest => PlayerMove::SecondBest,
            BitboardMove::StoneMove(smove) => player_move_on_board(pos.played_spots(), smove),
        }
    }

    /// The move in notation, on the given position.
    pub fn to_string(self, pos: &Position) -> (r: String)
        ensures
            r@ == move_text(
                match self {
                    BitboardMove::SecondBest => PlayerMove::SecondBest,
                    BitboardMove::StoneMove(smove) => player_move_on(pos@.played, smove),
                },
            ),
    {
        self.to_player_move(pos).to_string()
    }
}

/// The stack and height shown at a row and column of the printed board, a
/// diamond with stack 0 at the bottom and stack 4 at the top.
pub open spec fn diamond_cell(row: nat, col: nat) -> Option<(nat, nat)> {
    if row == 0 && col == 4 {
        Some((4, 2))
    } else if row == 1 && col == 1 {
        Some((5, 2))
    } else if row == 1 && col == 4 {
        Some((4, 1))
    } else if row == 1 && col == 7 {
        Some((3, 2))
    } else if row == 2 && col == 2 {
        Some((5, 1))
    } else if row == 2 && col == 4 {
        Some((4, 0))
    } else if row == 2 && col == 6 {
        Some((3, 1))
    } else if row == 3 && col == 3 {
        Some((5, 0))
    } else if row == 3 && col == 5 {
        Some((3, 0))
    } else if row == 4 && col <= 2 {
        Some((6, (2 - col) as nat))
    } else if row == 4 && col >= 6 && col <= 8 {
        Some((2, (col - 6) as nat))
    } else if row == 5 && col == 3 {
        Some((7, 0))
    } else if row == 5 && col == 5 {
        Some((1, 0))
    } else if row == 6 && col == 2 {
        Some((7, 1))
    } else if row == 6 && col == 4 {
        Some((0, 0))
    } else if row == 6 && col == 6 {
        Some((1, 1))
    } else if row == 7 && col == 1 {
        Some((7, 2))
    } else if row == 7 && col == 4 {
        Some((0, 1))
    } else if row == 7 && col == 7 {
        Some((1, 2))
    } else if row == 8 && col == 4 {
        Some((0, 2))
    } else {
        None
    }
}

fn diamond_cell_exec(row: usize, col: usize) -> (r: Option<(usize, usize)>)
    requires
        row < 9,
        col < 9,
    ensures
        match diamond_cell(row as nat, col as nat) {
            Some((st, h)) => r == Some((st as usize, h as usize)) && st < 8 && h < 3,
            None => r is None,
        },
{
    if row == 0 && col == 4 {
        Some((4, 2))
    } else if row == 1 && col == 1 {
        Some((5, 2))
    } else if row == 1 && col == 4 {
        Some((4, 1))
    } else if row == 1 && col == 7 {
        Some((3, 2))
    } else if row == 2 && col == 2 {
        Some((5, 1))
    } else if row == 2 && col == 4 {
        Some((4, 0))
    } else if row == 2 && col == 6 {
        Some((3, 1))
    } else if row == 3 && col == 3 {
        Some((5, 0))
    } else if row == 3 && col == 5 {
        Some((3, 0))
    } else if row == 4 && col <= 2 {
        Some((6, 2 - col))
    } else if row == 4 && col >= 6 && col <= 8 {
        Some((2, col - 6))
    } else if row == 5 && col == 3 {
        Some((7, 0))
    } else if row == 5 && col == 5 {
        Some((1, 0))
    } else if row == 6 && col == 2 {
        Some((7, 1))
    } else if row == 6 && col == 4 {
        Some((0, 0))
    } else if row == 6 && col == 6 {
        Some((1, 1))
    } else if row == 7 && col == 1 {
        Some((7, 2))
    } else if row == 7 && col == 4 {
        Some((0, 1))
    } else if row == 7 && col == 7 {
        Some((1, 2))
    } else if row == 8 && col == 4 {
        Some((0, 2))
    } else {
        None
    }
}

/// The printed spot at a row and column: the stone's symbol, `.` for an
/// empty spot, a blank off the board; each followed by a blank.
pub open spec fn cell_text(p: PositionModel, row: nat, col: nat) -> Seq<char> {
    let side = if p.num_moves % 2 == 0 {
        Color::Black
    } else {
        Color::White
    };
    let c = match diamond_cell(row, col) {
        None => seq![' '],
        Some((st, h)) => {
            let mask = 1u64 << (4 * st + h) as u64;
            if mask & p.our != 0 {
                side.symbol_spec()
            } else if mask & p.played != 0 {
                side.other_spec().symbol_spec()
            } else {
                seq!['.']
            }
        },
    };
    c + seq![' ']
}

/// The first `k` cells of a printed row.
pub open spec fn row_text(p: PositionModel, row: nat, k: nat) -> Seq<char>
    decreases k,
{
    if k == 0 {
        Seq::empty()
    } else {
        row_text(p, row, (k - 1) as nat) + cell_text(p, row, (k - 1) as nat)
    }
}

/// The first `r` rows of the printed board, each ending in a newline.
pub open spec fn board_text(p: PositionModel, r: nat) -> Seq<char>
    decreases r,
{
    if r == 0 {
        Seq::empty()
    } else {
        board_text(p, (r - 1) as nat) + row_text(p, (r - 1) as nat, 9) + seq!['\n']
    }
}

/// The rows and columns of a printed bitboard: heights from the guard bit
/// down, the 16 columns left to right, `x` for a set bit.
pub open spec fn bitboard_row_text(bb: u64, height: nat, k: nat) -> Seq<char>
    decreases k,
{
    if k == 0 {
        Seq::empty()
    } else {
        bitboard_row_text(bb, height, (k - 1) as nat) + if bb & (1u64 << (4 * (k - 1) + height) as u64)
            == 0 {
            seq!['.']
        } else {
            seq!['x']
        }
    }
}

pub open spec fn bitboard_text(bb: u64, r: nat) -> Seq<char>
    decreases r,
{
    if r == 0 {
        Seq::empty()
    } else {
        bitboard_text(bb, (r - 1) as nat) + bitboard_row_text(bb, (4 - r) as nat, 16) + seq!['\n']
    }
}

impl MoveFailed {
    /// What to tell a player whose move was refused.
    pub fn help_text(&self) -> (r: &'static str)
        ensures
            r@ == match *self {
                MoveFailed::InvalidFromSpot => "Invalid \"from\" spot in the given move."@,
                MoveFailed::InvalidToSpot => "Invalid \"to\" spot in the given move."@,
                MoveFailed::InvalidSecondBest => "Second best can not be called anymore on this move."@,
                MoveFailed::MissingFromSpot => "The \"from\" spot was not given for the given move."@,
                MoveFailed::MoveBanned => "The given move can not be played anymore, since \"Second Best!\" was called."@,
                MoveFailed::SameFromAndTo => "The \"from\" and \"to\" spot in the given move are the same."@,
                MoveFailed::ParseError => "The given move could not be parsed into a move.\nIt should be either a '!' (representing a \"Second Best!\" call),\na single number indicating the stack to move to, \nor two numbers separated by a '-' indicating the stacks to move from and to."@,
                MoveFailed::PositionWinning => "The position is won for the current player, so the game is over."@,
                MoveFailed::TooManyMoves => "The game has reached its largest number of moves."@,
            },
    {
        match self {
            MoveFailed::InvalidFromSpot => "Invalid \"from\" spot in the given move.",
            MoveFailed::InvalidToSpot => "Invalid \"to\" spot in the given move.",
            MoveFailed::InvalidSecondBest => "Second best can not be called anymore on this move.",
            MoveFailed::MissingFromSpot => "The \"from\" spot was not given for the given move.",
            MoveFailed::MoveBanned => "The given move can not be played anymore, since \"Second Best!\" was called.",
            MoveFailed::SameFromAndTo => "The \"from\" and \"to\" spot in the given move are the same.",
            MoveFailed::ParseError => "The given move could not be parsed into a move.\nIt should be either a '!' (representing a \"Second Best!\" call),\na single number indicating the stack to move to, \nor two numbers separated by a '-' indicating the stacks to move from and to.",
            MoveFailed::PositionWinning => "The position is won for the current player, so the game is over.",
            MoveFailed::TooManyMoves => "The game has reached its largest number of moves.",
        }
    }
}

/// The state of a game.
#[derive(Clone, Debug)]
pub struct Position {
    /// All the occupied spots.
    played_spots: Bitboard,
    /// The spots occupied by the side to move.
    our_spots: Bitboard,
    /// Number of stone moves on the board.
    num_moves: usize,
    /// The stone move of each ply.
    move_history: Vec<Option<Bitboard>>,
    /// The move banned at the start of each ply.
    banned_moves: Vec<Option<Bitboard>>,
}

impl View for Position {
    type V = PositionModel;

    closed spec fn view(&self) -> PositionModel {
        PositionModel {
            played: self.played_spots,
            our: self.our_spots,
            num_moves: self.num_moves as nat,
            history: self.move_history@,
            banned: self.banned_moves@,
        }
    }
}

pub open spec fn initial_model() -> PositionModel {
    PositionModel {
        played: 0,
        our: 0,
        num_moves: 0,
        history: Seq::new(HISTORY_LEN as nat, |i: int| None),
        banned: Seq::new(HISTORY_LEN as nat, |i: int| None),
    }
}

impl Default for Position {
    fn default() -> (r: Self)
        ensures
            r@ == initial_model(),
            r@.wf(),
    {
        Position::new()
    }
}

impl Position {
    pub const NUM_STACKS: usize = 8;
    pub const STACK_HEIGHT: usize = 3;
    pub const STONES_PER_PLAYER: usize = 8;
    pub const MAX_MOVES: usize = 255;
    /// Offset to the stack on the right.
    pub const RIGHT: usize = 1;
    /// Offset to the stack on the left.
    pub const LEFT: usize = 7;
    /// Offset to the opposite stack.
    pub const OPPOSITE: usize = 4;

    /// The empty board, black to move.
    pub fn new() -> (r: Self)
        ensures
            r@ == initial_model(),
            r@.wf(),
    {
        let r = Position {
            played_spots: 0,
            our_spots: 0,
            num_moves: 0,
            move_history: vec![None; HISTORY_LEN],
            banned_moves: vec![None; HISTORY_LEN],
        };
        assert(r.move_history@ =~= initial_model().history);
        assert(r.banned_moves@ =~= initial_model().banned);
        r
    }

    /// All the occupied spots.
    pub fn played_spots(&self) -> (r: Bitboard)
        ensures
            r == self@.played,
    {
        self.played_spots
    }

    /// The spots occupied by the side to move.
    pub fn our_spots(&self) -> (r: Bitboard)
        ensures
            r == self@.our,
    {
        self.our_spots
    }

    /// The stone move of ply `i`, if that ply has been played.
    pub fn history_at(&self, i: usize) -> (r: Option<Bitboard>)
        requires
            self@.wf(),
        ensures
            i < HISTORY_LEN ==> r == self@.history[i as int],
            i >= HISTORY_LEN ==> r is None,
    {
        if i < HISTORY_LEN {
            self.move_history[i]
        } else {
            None
        }
    }

    /// The move banned at the start of ply `i`, if any.
    pub fn banned_at(&self, i: usize) -> (r: Option<Bitboard>)
        requires
            self@.wf(),
        ensures
            i < HISTORY_LEN ==> r == self@.banned[i as int],
            i >= HISTORY_LEN ==> r is None,
    {
        if i < HISTORY_LEN {
            self.banned_moves[i]
        } else {
            None
        }
    }

    /// The three spots of stack `col % 8`, in both copies of the board.
    pub fn column_mask(col: usize) -> (r: Bitboard)
        requires
            col < 16,
        ensures
            r == column_mask_of(col as u64),
    {
        let c = (col % 8) as u64;
        (7u64 << (4 * c)) | (7u64 << (4 * c + 32))
    }

    /// The bottom spot of column `col` of the 16 columns.
    fn column_bottom_mask(col: usize) -> (r: Bitboard)
        requires
            col < 16,
        ensures
            r == column_bottom_of(col as u64),
    {
        1u64 << (4 * col as u64)
    }

    /// The empty spot just above each stack that is not full.
    pub fn free_spots(&self) -> (r: Bitboard)
        ensures
            r == free_spots_of(self@.played),
    {
        ((BOTTOM as u128) + (self.played_spots as u128)) as u64
    }

    /// The highest occupied spot of each stack.
    pub fn top_spots(&self) -> (r: Bitboard)
        ensures
            r == top_spots_of(self@.played),
    {
        self.played_spots ^ ((self.played_spots >> 1u64) & self.played_spots)
    }

    /// The stones of the side to move (`us`) or of the other side.
    fn stones(&self, us: bool) -> (r: Bitboard)
        ensures
            r == self@.stones(us),
    {
        if us {
            self.our_spots
        } else {
            self.played_spots ^ self.our_spots
        }
    }

    /// A 1 on the bottom of each stack topped by a stone of the given side.
    pub fn controlled_stacks(&self, us: bool) -> (r: Bitboard)
        ensures
            r == controlled_stacks_of(self@.played, self@.stones(us)),
    {
        let player_stones = self.stones(us) & self.top_spots();
        (player_stones & BOTTOM) | ((player_stones >> 1u64) & BOTTOM) | ((player_stones >> 2u64)
            & BOTTOM)
    }

    /// The three spots of each stack topped by a stone of the given side.
    pub fn controlled_columns(&self, us: bool) -> (r: Bitboard)
        ensures
            r == controlled_columns_of(self@.played, self@.stones(us)),
    {
        let c = self.controlled_stacks(us);
        assert(((c & BOTTOM) | ((c >> 1u64) & BOTTOM) | ((c >> 2u64) & BOTTOM)) <= (BOTTOM << 3u64))
            by (bit_vector);
        let s = self.stones(us) & self.top_spots();
        assert(((s & BOTTOM) | ((s >> 1u64) & BOTTOM) | ((s >> 2u64) & BOTTOM)) <= (BOTTOM << 3u64))
            by (bit_vector);
        (BOTTOM << 3u64) - c
    }

    /// The top spot of each stack topped by a stone of the given side.
    pub fn from_spots(&self, us: bool) -> (r: Bitboard)
        ensures
            r == from_spots_of(self@.played, self@.stones(us)),
    {
        self.top_spots() & self.controlled_columns(us)
    }

    /// A 1 on the bottom of each stack that is not full.
    pub fn free_columns(&self) -> (r: Bitboard)
        ensures
            r == free_columns_of(self@.played),
    {
        BOTTOM & !(self.played_spots >> 2u64)
    }

    /// The free spots that complete three stones of the side to move in a stack.
    pub fn vertical_alignment_spots(&self) -> (r: Bitboard)
        ensures
            r == vertical_alignment_spots_of(self@.played, self@.our),
    {
        (self.our_spots << 1u64) & (self.our_spots << 2u64) & self.free_spots()
    }

    /// The side to move.
    pub fn current_player(&self) -> (r: Color)
        ensures
            r == (if self@.num_moves % 2 == 0 {
                Color::Black
            } else {
                Color::White
            }),
    {
        if self.num_moves % 2 == 0 {
            Color::Black
        } else {
            Color::White
        }
    }

    /// The move that "Second Best!" just banned for the side to move, if any.
    pub fn banned_move(&self) -> (r: Option<Bitboard>)
        requires
            self@.wf(),
        ensures
            r == self@.banned_move(),
    {
        self.banned_moves[self.num_moves + 1]
    }

    /// The number of stone moves on the board.
    pub fn num_moves(&self) -> (r: usize)
        ensures
            r == self@.num_moves,
    {
        self.num_moves
    }

    /// The distance from the start of the game, in stone moves.
    pub fn ply(&self) -> (r: usize)
        ensures
            r == self@.num_moves,
    {
        self.num_moves
    }

    /// The last stone move played, counting one just taken back by
    /// "Second Best!", if any.
    pub fn last_stone_move(&self) -> (r: Option<Bitboard>)
        requires
            self@.wf(),
        ensures
            r == self@.last_stone_move(),
    {
        match self.banned_moves[self.num_moves + 1] {
            Some(b) => Some(b),
            None => self.move_history[self.num_moves],
        }
    }

    /// In the second phase stones are moved instead of placed.
    pub fn is_second_phase(&self) -> (r: bool)
        ensures
            r == self@.is_second_phase(),
    {
        self.num_moves >= 2 * Self::STONES_PER_PLAYER
    }

    /// Stack `to` is next to or opposite stack `from`.
    fn valid_adjacent(from: usize, to: usize) -> (r: bool)
        requires
            from < 8,
        ensures
            r == adjacent(from as nat, to as nat),
    {
        (from + Self::RIGHT) % Self::NUM_STACKS == to || (from + Self::OPPOSITE) % Self::NUM_STACKS
            == to || (from + Self::LEFT) % Self::NUM_STACKS == to
    }

    /// The bitboard of the stone move onto stack `to`, from stack `from` if given.
    pub fn stone_move(&self, from: Option<usize>, to: usize) -> (r: Bitboard)
        requires
            to < 16,
            from matches Some(f) ==> f < 16,
        ensures
            r == self@.stone_move(from, to),
    {
        let bb = Self::column_mask(to) & self.free_spots();
        match from {
            Some(f) => bb | (Self::column_mask(f) & self.top_spots()),
            None => bb,
        }
    }

    /// "Second Best!" may be called: a move was played, and neither this
    /// ply nor the previous one started with a ban.
    pub fn can_second_best(&self) -> (r: bool)
        requires
            self@.wf(),
        ensures
            r == self@.can_second_best(),
    {
        self.num_moves > 0 && self.banned_moves[self.num_moves].is_none()
            && self.banned_moves[self.num_moves + 1].is_none()
    }

    /// Play a stone move, given as its bitboard, without any check.
    pub fn make_stone_move(&mut self, smove: Bitboard)
        requires
            old(self)@.wf(),
            old(self)@.num_moves < 255,
        ensures
            final(self)@ == after_stone_move(old(self)@, smove),
            final(self)@.wf(),
    {
        self.our_spots = self.our_spots ^ self.played_spots;
        self.played_spots = self.played_spots ^ smove;
        self.num_moves = self.num_moves + 1;
        self.move_history.set(self.num_moves, Some(smove));
    }

    /// Take back the last stone move and return it.
    pub fn unmake_stone_move(&mut self) -> (r: Bitboard)
        requires
            old(self)@.wf(),
            old(self)@.num_moves > 0,
        ensures
            r == old(self)@.last_move(),
            final(self)@ == after_unmake_stone_move(old(self)@),
            final(self)@.wf(),
    {
        let last_move = match self.move_history[self.num_moves] {
            Some(m) => m,
            None => 0,
        };
        self.move_history.set(self.num_moves, None);
        self.banned_moves.set(self.num_moves + 1, None);
        self.num_moves = self.num_moves - 1;
        self.played_spots = self.played_spots ^ last_move;
        self.our_spots = self.our_spots ^ self.played_spots;
        last_move
    }

    /// "Second Best!": take back the opponent's last move and ban it.
    pub fn second_best(&mut self)
        requires
            old(self)@.wf(),
            old(self)@.can_second_best(),
        ensures
            final(self)@ == after_second_best(old(self)@),
            final(self)@.wf(),
            !final(self)@.can_second_best(),
    {
        let last_move = self.unmake_stone_move();
        self.banned_moves.set(self.num_moves + 1, Some(last_move));
    }

    /// Undo "Second Best!": play the banned move again.
    pub fn undo_second_best(&mut self)
        requires
            old(self)@.wf(),
            old(self)@.banned_move() is Some,
            old(self)@.num_moves < 255,
        ensures
            final(self)@ == after_undo_second_best(old(self)@),
            final(self)@.wf(),
    {
        let banned_move = match self.banned_moves[self.num_moves + 1] {
            Some(b) => b,
            None => 0,
        };
        self.banned_moves.set(self.num_moves + 1, None);
        self.make_stone_move(banned_move);
    }

    /// Play a move without any check.
    pub fn make_move(&mut self, gmove: BitboardMove)
        requires
            old(self)@.wf(),
            move_allowed(old(self)@, gmove),
        ensures
            final(self)@ == after_move(old(self)@, gmove),
            final(self)@.wf(),
    {
        match gmove {
            BitboardMove::SecondBest => self.second_best(),
            BitboardMove::StoneMove(smove) => self.make_stone_move(smove),
        }
    }

    /// Take back the last move: a "Second Best!" if the side to move has a
    /// banned move, else the last stone move.
    pub fn unmake_move(&mut self)
        requires
            old(self)@.wf(),
            old(self)@.banned_move() is Some ==> old(self)@.num_moves < 255,
            old(self)@.banned_move() is None ==> old(self)@.num_moves > 0,
        ensures
            final(self)@ == after_unmake_move(old(self)@),
            final(self)@.wf(),
    {
        if self.banned_move().is_some() {
            self.undo_second_best();
        } else {
            self.unmake_stone_move();
        }
    }

    /// The given side has an alignment: three stones in one stack, or the
    /// tops of four neighbouring stacks.
    pub fn has_alignment(&self, us: bool) -> (r: bool)
        ensures
            r == self@.has_alignment(us),
    {
        let player_stones = self.stones(us);
        if (player_stones & (player_stones << 1u64) & (player_stones << 2u64)) != 0 {
            return true;
        }
        let top_of_stacks = self.controlled_stacks(us);
        let mut bottom_four_mask: u64 = BOTTOM_FOUR;
        let mut k: u64 = 0;
        assert(four_window(0) == BOTTOM_FOUR) by (bit_vector);
        while k < 12
            invariant
                k <= 12,
                bottom_four_mask == four_window(k),
                top_of_stacks == controlled_stacks_of(self@.played, self@.stones(us)),
                !three_in_column(self@.stones(us)),
                forall|j: u64| j < k ==> !#[trigger] four_at(top_of_stacks, j),
            decreases 12 - k,
        {
            if bottom_four_mask == (bottom_four_mask & top_of_stacks) {
                assert(four_at(top_of_stacks, k));
                return true;
            }
            assert(four_window(k) << 4u64 == four_window((k + 1) as u64)) by (bit_vector)
                requires
                    k < 12,
            ;
            bottom_four_mask = bottom_four_mask << 4u64;
            k = k + 1;
        }
        false
    }

    /// The side to move has lost: it cannot call "Second Best!", and either
    /// the opponent has an alignment or, in the second phase, no stone move
    /// is left.
    pub fn game_over(&self) -> (r: bool)
        requires
            self@.wf(),
        ensures
            r == self@.is_lost(),
    {
        if self.can_second_best() {
            return false;
        }
        if self.has_alignment(false) {
            return true;
        }
        if !self.is_second_phase() {
            return false;
        }
        let free_columns = self.free_columns();
        let our_columns = self.controlled_stacks(true);
        let mut from: usize = 0;
        while from < Self::NUM_STACKS
            invariant
                from <= 8,
                free_columns == free_columns_of(self@.played),
                our_columns == controlled_stacks_of(self@.played, self@.our),
                !self@.can_second_best(),
                !self@.has_alignment(false),
                self@.is_second_phase(),
                forall|f: u64| f < from ==> !#[trigger] self@.has_move_from(f),
            decreases 8 - from,
        {
            if (our_columns & Self::column_bottom_mask(from)) != 0 && ((free_columns
                & Self::column_bottom_mask((from + Self::RIGHT) % Self::NUM_STACKS)) != 0 || (
            free_columns & Self::column_bottom_mask((from + Self::LEFT) % Self::NUM_STACKS)) != 0
                || (free_columns & Self::column_bottom_mask((from + Self::OPPOSITE)
                % Self::NUM_STACKS)) != 0) {
                assert(self@.has_move_from(from as u64));
                return false;
            }
            assert(!self@.has_move_from(from as u64));
            from = from + 1;
        }
        true
    }

    /// The state of the game for the side to move. A win shows one ply
    /// earlier, as a loss of the opponent, so it is never returned here.
    pub fn game_status(&self) -> (r: GameStatus)
        requires
            self@.wf(),
        ensures
            r == (if self@.is_lost() {
                GameStatus::Loss
            } else {
                GameStatus::OnGoing
            }),
    {
        if self.game_over() {
            GameStatus::Loss
        } else {
            GameStatus::OnGoing
        }
    }

    /// The given stone move is the one banned for the side to move.
    fn is_move_banned(&self, smove: Bitboard) -> (r: bool)
        requires
            self@.wf(),
        ensures
            r == (self@.banned_move() == Some(smove)),
    {
        match self.banned_moves[self.num_moves + 1] {
            Some(b) => b == smove,
            None => false,
        }
    }

    /// The bitboard of a stone move given by stacks, or why it is refused.
    pub fn check_stone_move(&self, from: Option<usize>, to: usize) -> (r: Result<Bitboard, MoveFailed>)
        requires
            self@.wf(),
        ensures
            r == self@.stone_move_outcome(from, to),
    {
        if self.num_moves >= Self::MAX_MOVES {
            return Err(MoveFailed::TooManyMoves);
        }
        if self.has_alignment(false) && !self.can_second_best() {
            return Err(MoveFailed::PositionWinning);
        }
        if self.is_second_phase() {
            let from = match from {
                Some(f) => f,
                None => {
                    return Err(MoveFailed::MissingFromSpot);
                },
            };
            if from >= Self::NUM_STACKS {
                return Err(MoveFailed::InvalidFromSpot);
            }
            if to >= Self::NUM_STACKS {
                return Err(MoveFailed::InvalidToSpot);
            }
            if to == from {
                return Err(MoveFailed::SameFromAndTo);
            }
            if (Self::column_mask(from) & self.top_spots()) & self.our_spots == 0 {
                return Err(MoveFailed::InvalidFromSpot);
            }
            if !Self::valid_adjacent(from, to) || (Self::column_mask(to) & self.free_spots()) == 0 {
                return Err(MoveFailed::InvalidToSpot);
            }
            let smove = self.stone_move(Some(from), to);
            if self.is_move_banned(smove) {
                return Err(MoveFailed::MoveBanned);
            }
            return Ok(smove);
        }
        if from.is_some() {
            return Err(MoveFailed::InvalidFromSpot);
        }
        if to >= Self::NUM_STACKS {
            return Err(MoveFailed::InvalidToSpot);
        }
        if (Self::column_mask(to) & self.free_spots()) == 0 {
            return Err(MoveFailed::InvalidToSpot);
        }
        let smove = self.stone_move(None, to);
        if self.is_move_banned(smove) {
            return Err(MoveFailed::MoveBanned);
        }
        Ok(smove)
    }

    /// Check a move and make it, or say why it cannot be made; on an error
    /// the position is left as it was. A stone move keeps a sound board sound.
    pub fn try_make_move(&mut self, pmove: PlayerMove) -> (r: Result<(), MoveFailed>)
        requires
            old(self)@.wf(),
        ensures
            final(self)@.wf(),
            match pmove {
                PlayerMove::SecondBest => if old(self)@.can_second_best() {
                    r is Ok && final(self)@ == after_second_best(old(self)@)
                } else {
                    r == Err::<(), MoveFailed>(MoveFailed::InvalidSecondBest) && final(self)@ == old(
                        self,
                    )@
                },
                PlayerMove::StoneMove { from, to } => match old(self)@.stone_move_outcome(from, to) {
                    Ok(m) => r is Ok && final(self)@ == after_stone_move(old(self)@, m),
                    Err(e) => r == Err::<(), MoveFailed>(e) && final(self)@ == old(self)@,
                },
            },
            match try_move_outcome(old(self)@, pmove) {
                Ok(q) => r is Ok && final(self)@ == q,
                Err(e) => r == Err::<(), MoveFailed>(e) && final(self)@ == old(self)@,
            },
            (pmove is StoneMove && r is Ok && board_ok(old(self)@.played, old(self)@.our)) ==> board_ok(
                final(self)@.played,
                final(self)@.our,
            ),
    {
        let (from, to) = match pmove {
            PlayerMove::SecondBest => {
                if !self.can_second_best() {
                    return Err(MoveFailed::InvalidSecondBest);
                } else {
                    self.second_best();
                    return Ok(());
                }
            },
            PlayerMove::StoneMove { from, to } => (from, to),
        };
        let smove = match self.check_stone_move(from, to) {
            Ok(m) => m,
            Err(e) => {
                return Err(e);
            },
        };
        proof {
            if board_ok(self@.played, self@.our) {
                lemma_legal_stone_move_keeps_board_ok(self@, from, to);
            }
        }
        self.make_stone_move(smove);
        Ok(())
    }

    /// Read and play moves in notation one after the other; stop at the
    /// first that cannot be read or made, and return why.
    pub fn parse_and_play_moves(&mut self, moves: Vec<String>) -> (r: Result<(), MoveFailed>)
        requires
            old(self)@.wf(),
        ensures
            final(self)@.wf(),
            (r, final(self)@) == play_text_moves(old(self)@, moves@.map_values(|m: String| m@)),
    {
        let ghost texts = moves@.map_values(|m: String| m@);
        let mut i: usize = 0;
        assert(texts.skip(0) =~= texts);
        while i < moves.len()
            invariant
                self@.wf(),
                i <= moves@.len(),
                texts == moves@.map_values(|m: String| m@),
                play_text_moves(old(self)@, texts) == play_text_moves(self@, texts.skip(i as int)),
            decreases moves.len() - i,
        {
            let ghost before = self@;
            let ghost rest = texts.skip(i as int);
            assert(rest[0] == moves@[i as int]@);
            assert(rest.skip(1) =~= texts.skip(i + 1));
            let pmove = match parse_move_str(moves[i].as_str()) {
                Ok(m) => m,
                Err(e) => {
                    return Err(e);
                },
            };
            match self.try_make_move(pmove) {
                Ok(()) => {},
                Err(e) => {
                    return Err(e);
                },
            }
            i = i + 1;
        }
        assert(texts.skip(i as int).len() == 0);
        Ok(())
    }

    /// The game in notation, from which `parse_and_play_moves` plays it back:
    /// each ply as the move played, preceded by the banned move and `!` when
    /// the ply started with a ban.
    pub fn serialize(&self) -> (r: String)
        requires
            self@.wf(),
        ensures
            r@ == serialized(self@),
    {
        let ghost p = self@;
        let n = self.num_moves;
        let mut befores: Vec<u64> = vec![0; n + 1];
        let mut played = self.played_spots;
        let mut i = n;
        befores.set(n, played);
        while i > 0
            invariant
                p == self@,
                p.wf(),
                n == p.num_moves,
                i <= n,
                befores@.len() == n + 1,
                played == played_before(p, i as int),
                forall|j: int| i <= j <= n ==> befores@[j] == played_before(p, j),
            decreases i,
        {
            let m = match self.move_history[i] {
                Some(m) => m,
                None => 0,
            };
            played = played ^ m;
            i = i - 1;
            befores.set(i, played);
        }
        let mut s = String::new();
        let mut count: usize = 0;
        let ghost mut ws: Seq<Seq<char>> = Seq::empty();
        let mut k: usize = 1;
        assert(s@ =~= join_words(ws));
        while k <= n + 1
            invariant
                p == self@,
                p.wf(),
                n == p.num_moves,
                1 <= k <= n + 2,
                befores@.len() == n + 1,
                forall|j: int| 0 <= j <= n ==> befores@[j] == played_before(p, j),
                ws == words_upto(p, k - 1),
                s@ == join_words(ws),
                count == ws.len(),
                count <= 2 * k,
            decreases n + 2 - k,
        {
            let before = befores[k - 1];
            let ghost start = ws;
            proof {
                reveal_strlit(" !");
            }
            match self.banned_moves[k] {
                Some(b) => {
                    let mut w = String::new();
                    push_move_text(&mut w, player_move_on_board(before, b));
                    w.append(" !");
                    assert(w@ =~= move_text(player_move_on(before, b)) + seq![' ', '!']);
                    push_word(&mut s, count, w.as_str(), Ghost(ws));
                    proof {
                        ws = ws.push(w@);
                    }
                    count = count + 1;
                },
                None => {},
            }
            if k <= n {
                let m = match self.move_history[k] {
                    Some(m) => m,
                    None => 0,
                };
                let mut w = String::new();
                push_move_text(&mut w, player_move_on_board(before, m));
                assert(w@ =~= move_text(player_move_on(before, m)));
                push_word(&mut s, count, w.as_str(), Ghost(ws));
                proof {
                    ws = ws.push(w@);
                }
                count = count + 1;
            }
            assert(ws =~= start + ply_words(p, k as int));
            k = k + 1;
        }
        s
    }

    /// The board drawn as a diamond, one line per row: the side to move's
    /// stones, the other side's, and `.` for empty spots.
    pub fn board_string(&self) -> (r: String)
        ensures
            r@ == board_text(self@, 9),
    {
        let side = self.current_player();
        let mut s = String::new();
        let mut row: usize = 0;
        proof {
            reveal_strlit(" ");
            reveal_strlit(".");
            reveal_strlit("\n");
        }
        assert(s@ =~= board_text(self@, 0));
        while row < 9
            invariant
                row <= 9,
                s@ == board_text(self@, row as nat),
                side == (if self@.num_moves % 2 == 0 {
                    Color::Black
                } else {
                    Color::White
                }),
            decreases 9 - row,
        {
            let ghost start = s@;
            let mut col: usize = 0;
            assert(s@ =~= start + row_text(self@, row as nat, 0));
            while col < 9
                invariant
                    row < 9,
                    col <= 9,
                    s@ == start + row_text(self@, row as nat, col as nat),
                    side == (if self@.num_moves % 2 == 0 {
                        Color::Black
                    } else {
                        Color::White
                    }),
                decreases 9 - col,
            {
                let ghost before = s@;
                proof {
                    reveal_strlit(" ");
                    reveal_strlit(".");
                }
                match diamond_cell_exec(row, col) {
                    None => s.append(" "),
                    Some((st, h)) => {
                        let mask: u64 = 1u64 << (4 * st + h) as u64;
                        if mask & self.our_spots != 0 {
                            s.append(side.symbol());
                        } else if mask & self.played_spots != 0 {
                            s.append(side.other().symbol());
                        } else {
                            s.append(".");
                        }
                    },
                }
                s.append(" ");
                assert(s@ =~= before + cell_text(self@, row as nat, col as nat));
                assert(s@ =~= start + row_text(self@, row as nat, (col + 1) as nat));
                col = col + 1;
            }
            proof {
                reveal_strlit("\n");
            }
            s.append("\n");
            assert(s@ =~= board_text(self@, (row + 1) as nat));
            row = row + 1;
        }
        s
    }

    /// A bitboard drawn as text: one line per height, guard bits first, `x`
    /// for a set bit, followed by an empty line.
    pub fn bitboard_string(bb: Bitboard) -> (r: String)
        ensures
            r@ == bitboard_text(bb, 4) + seq!['\n'],
    {
        let mut s = String::new();
        let mut r: usize = 0;
        proof {
            reveal_strlit(".");
            reveal_strlit("x");
            reveal_strlit("\n");
        }
        assert(s@ =~= bitboard_text(bb, 0));
        while r < 4
            invariant
                r <= 4,
                s@ == bitboard_text(bb, r as nat),
            decreases 4 - r,
        {
            let ghost start = s@;
            let height = 3 - r;
            let mut col: usize = 0;
            assert(s@ =~= start + bitboard_row_text(bb, height as nat, 0));
            while col < 16
                invariant
                    r < 4,
                    height == 3 - r,
                    col <= 16,
                    s@ == start + bitboard_row_text(bb, height as nat, col as nat),
                decreases 16 - col,
            {
                let mask: u64 = 1u64 << (4 * col + height) as u64;
                proof {
                    reveal_strlit(".");
                    reveal_strlit("x");
                }
                if bb & mask == 0 {
                    s.append(".");
                } else {
                    s.append("x");
                }
                assert(s@ =~= start + bitboard_row_text(bb, height as nat, (col + 1) as nat));
                col = col + 1;
            }
            proof {
                reveal_strlit("\n");
            }
            s.append("\n");
            assert(s@ =~= bitboard_text(bb, (r + 1) as nat));
            r = r + 1;
        }
        s.append("\n");
        s
    }

    /// Place a stone on stack `to` without any check.
    pub fn make_phase_one_move(&mut self, to: usize)
        requires
            old(self)@.wf(),
            old(self)@.num_moves < 255,
            to < 8,
        ensures
            final(self)@ == after_stone_move(old(self)@, old(self)@.stone_move(None, to)),
            final(self)@.wf(),
    {
        let smove = self.stone_move(None, to);
        self.make_stone_move(smove)
    }
}

/// Making a move and then taking back the last move gives back exactly the
/// position we started from: both bitboards, the move counter, the history
/// and the bans.
pub proof fn lemma_make_unmake_round_trip(p: PositionModel, m: BitboardMove)
    requires
        p.wf(),
        move_allowed(p, m),
    ensures
        after_unmake_move(after_move(p, m)) == p,
        after_move(p, m).wf(),
        after_move(p, m).banned_move() is Some ==> after_move(p, m).num_moves < 255,
        after_move(p, m).banned_move() is None ==> after_move(p, m).num_moves > 0,
{
    lemma_xor_cancel();
    match m {
        BitboardMove::SecondBest => lemma_second_best_round_trip(p),
        BitboardMove::StoneMove(s) => {
            let q = after_stone_move(p, s);
            assert(q.banned_move() is None);
            let r = after_unmake_stone_move(q);
            assert(r.history =~= p.history);
            assert(r.banned =~= p.banned);
        },
    }
}

/// Calling "Second Best!" and undoing it leaves the position unchanged, so a
/// search that goes through both sees the same position as one that does
/// neither.
pub proof fn lemma_second_best_round_trip(p: PositionModel)
    requires
        p.wf(),
        p.can_second_best(),
    ensures
        after_undo_second_best(after_second_best(p)) == p,
        after_unmake_move(after_second_best(p)) == p,
        after_second_best(p).wf(),
        after_second_best(p).banned_move() is Some,
        !after_second_best(p).can_second_best(),
{
    lemma_xor_cancel();
    let q = after_second_best(p);
    assert(q.banned_move() is Some);
    let r = after_undo_second_best(q);
    assert(r.history =~= p.history);
    assert(r.banned =~= p.banned);
}

/// Every stone move that `try_make_move` accepts keeps a sound board sound:
/// guard bits stay clear, the two copies stay equal, stacks stay filled from
/// the bottom.
pub proof fn lemma_legal_stone_move_keeps_board_ok(p: PositionModel, from: Option<usize>, to: usize)
    requires
        p.wf(),
        board_ok(p.played, p.our),
        p.stone_move_outcome(from, to) is Ok,
    ensures
        board_ok(
            after_stone_move(p, p.stone_move_outcome(from, to)->Ok_0).played,
            after_stone_move(p, p.stone_move_outcome(from, to)->Ok_0).our,
        ),
{
    if p.is_second_phase() {
        let f = from->0;
        lemma_shift_keeps_board_ok(p.played, p.our, f as u64, to as u64);
    } else {
        lemma_placement_keeps_board_ok(p.played, p.our, to as u64);
    }
}

/// Swapping which side is "us", on the same board bits, swaps who has an
/// alignment.
pub proof fn lemma_alignment_symmetry(p: PositionModel, us: bool)
    ensures
        (PositionModel { our: p.played ^ p.our, ..p }).has_alignment(!us) == p.has_alignment(us),
{
    let played = p.played;
    let our = p.our;
    assert(played ^ (played ^ our) == our) by (bit_vector);
}

/// A move written in notation reads back as the same move.
pub proof fn lemma_move_text_round_trip(m: PlayerMove)
    ensures
        parse_move(move_text(m)) == Ok::<PlayerMove, MoveFailed>(m),
{
    match m {
        PlayerMove::SecondBest => {
            assert(first_dash(seq!['!'], 0) == 1) by {
                assert(first_dash(seq!['!'], 1) == 1);
            }
        },
        PlayerMove::StoneMove { from: None, to } => {
            let s = decimal_of(to as nat);
            lemma_decimal_reads_back(to as nat);
            lemma_no_dash_in_digits(s, 0);
            assert(s != seq!['!']) by {
                if s == seq!['!'] {
                    assert(s[0] == '!');
                }
            }
        },
        PlayerMove::StoneMove { from: Some(f), to } => {
            let a = decimal_of(f as nat);
            let b = decimal_of(to as nat);
            let s = a + seq!['-'] + b;
            lemma_decimal_reads_back(f as nat);
            lemma_decimal_reads_back(to as nat);
            lemma_dash_after_digits(a, b, 0);
            let d = a.len() as int;
            assert(s.subrange(0, d) =~= a);
            assert(s.subrange(d + 1, s.len() as int) =~= b);
            assert forall|j: int| d + 1 <= j < s.len() implies s[j] != '-' by {
                assert(s[j] == b[j - d - 1]);
                assert(is_digit(b[j - d - 1]));
            }
            lemma_no_dash_from(s, d + 1);
            assert(s != seq!['!']) by {
                if s == seq!['!'] {
                    assert(s.len() >= 3);
                }
            }
        },
    }
}

} // verus!
