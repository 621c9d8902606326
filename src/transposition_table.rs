//! A direct-mapped cache of search results, keyed by the position.
use vstd::prelude::*;
use crate::bitboard::{
    board_ok, column_mask_of, free_spots_of, from_spots_of, top_spots_of, GUARD_MASK, LOW_HALF,
};
use crate::eval::{decode_eval, decoded, ExplainableEval};
use crate::position::{legal_stone_move, BitboardMove, MoveFailed, PlayerMove, Position, PositionModel};

verus! {

/// A move in 8 bits: bit 7 says "Second Best!", bits 4..6 hold the "to"
/// stack, bits 0..3 the "from" stack (8 when there is none).
#[derive(Debug, Clone, Copy, PartialEq, Eq, Structural)]
pub struct TTMove(u8);

pub open spec fn tt_from(b: u8) -> Option<usize> {
    if b & 0x0f == 8 {
        None
    } else {
        Some((b & 0x0f) as usize)
    }
}

pub open spec fn tt_to(b: u8) -> usize {
    ((b & 0x70) >> 4u8) as usize
}

pub open spec fn tt_is_second_best(b: u8) -> bool {
    b & 0x80 != 0
}

/// The lowest column of `bb` among the first `c..8`, or 8.
pub open spec fn lowest_column(bb: u64, c: nat) -> nat
    decreases 8 - c,
{
    if c >= 8 {
        8
    } else if bb & (0xfu64 << (4 * c) as u64) != 0 {
        c
    } else {
        lowest_column(bb, c + 1)
    }
}

/// The encoding of a move on a position: its stacks, found from the
/// position's free spots and the tops of the stacks the mover controls.
pub open spec fn tt_encode(p: PositionModel, m: BitboardMove) -> u8 {
    match m {
        BitboardMove::SecondBest => 0x80,
        BitboardMove::StoneMove(s) => {
            let from_stack = lowest_column(s & from_spots_of(p.played, p.stones(true)), 0);
            let to_stack = lowest_column(s & free_spots_of(p.played), 0);
            (from_stack as u8 | ((to_stack as u8 & 7) << 4u8)) as u8
        },
    }
}

/// The move an encoding stands for on a position.
pub open spec fn tt_decode(p: PositionModel, b: u8) -> BitboardMove {
    if tt_is_second_best(b) {
        BitboardMove::SecondBest
    } else {
        let to_part = free_spots_of(p.played) & column_mask_of(tt_to(b) as u64);
        match tt_from(b) {
            Some(f) => BitboardMove::StoneMove(
                to_part | (from_spots_of(p.played, p.stones(true)) & column_mask_of(f as u64)),
            ),
            None => BitboardMove::StoneMove(to_part),
        }
    }
}

/// The lowest column with a spot of `bb` in the lower copy, or 8.
fn lowest_column_of(bb: u64) -> (r: u8)
    ensures
        r == lowest_column(bb, 0),
        r <= 8,
{
    let mut c: u64 = 0;
    while c < 8
        invariant
            c <= 8,
            lowest_column(bb, 0) == lowest_column(bb, c as nat),
        decreases 8 - c,
    {
        if bb & (0xfu64 << (4 * c)) != 0 {
            return c as u8;
        }
        c = c + 1;
    }
    8
}

/// On a sound board the free and top spots are doubled, lie apart, and the
/// "from" spots are top spots.
proof fn lemma_sound_spots(played: u64, our: u64)
    by (bit_vector)
    requires
        board_ok(played, our),
    ensures
        free_spots_of(played) >> 32u64 == free_spots_of(played) & LOW_HALF,
        top_spots_of(played) >> 32u64 == top_spots_of(played) & LOW_HALF,
        top_spots_of(played) & free_spots_of(played) == 0,
        from_spots_of(played, our) & !top_spots_of(played) == 0,
{
}

/// Spots of column `k` of a doubled set show in the lower copy of column
/// `k`, and in no other column.
proof fn lemma_column_in_lower_copy(k: u64, j: u64, y: u64)
    by (bit_vector)
    requires
        k < 8,
        j < 8,
        y >> 32u64 == y & LOW_HALF,
    ensures
        (column_mask_of(k) & y) != 0 ==> ((column_mask_of(k) & y) & (0xfu64 << (4 * k) as u64)) != 0,
        j != k ==> ((column_mask_of(k) & y) & (0xfu64 << (4 * j) as u64)) == 0,
{
}

/// From a column whose top stone is ours, the "from" spot is the top spot.
proof fn lemma_from_column(played: u64, our: u64, f: u64)
    by (bit_vector)
    requires
        board_ok(played, our),
        f < 8,
        (column_mask_of(f) & top_spots_of(played)) & our != 0,
    ensures
        from_spots_of(played, our) & column_mask_of(f) == column_mask_of(f) & top_spots_of(played),
        (column_mask_of(f) & top_spots_of(played)) & from_spots_of(played, our) == column_mask_of(f)
            & top_spots_of(played),
{
}

proof fn lemma_encoding_bits(f: u8, t: u8)
    by (bit_vector)
    requires
        f <= 8,
        t < 8,
    ensures
        ((f | ((t & 7) << 4u8)) as u8) & 0x0f == f,
        ((((f | ((t & 7) << 4u8)) as u8) & 0x70) >> 4u8) == t,
        ((f | ((t & 7) << 4u8)) as u8) & 0x80 == 0,
        (0x80u8 & 0x80u8) != 0,
{
}

proof fn lemma_spot_algebra(c: u64, d: u64, free: u64, top: u64, fs: u64)
    by (bit_vector)
    requires
        top & free == 0,
        fs & !top == 0,
    ensures
        ((c & free) | (d & top)) & free == c & free,
        ((c & free) | (d & top)) & fs == (d & top) & fs,
        (c & free) & fs == 0,
        (c & free) & free == c & free,
        free & c == c & free,
{
}

/// The lowest column of spots lying in column `k` alone is `k`.
proof fn lemma_lowest_column_is(x: u64, k: nat, c: nat)
    requires
        k < 8,
        c <= k,
        x & (0xfu64 << (4 * k) as u64) != 0,
        forall|j: nat| c <= j < k ==> #[trigger] (x & (0xfu64 << (4 * j) as u64)) == 0,
    ensures
        lowest_column(x, c) == k,
    decreases k - c,
{
    if c < k {
        lemma_lowest_column_is(x, k, c + 1);
    }
}

/// No spots: no lowest column.
proof fn lemma_lowest_column_none(c: nat)
    ensures
        lowest_column(0, c) == 8,
    decreases 8 - c,
{
    if c < 8 {
        let cc = c as u64;
        assert((0u64 & (0xfu64 << (4 * cc) as u64)) == 0) by (bit_vector);
        lemma_lowest_column_none(c + 1);
    }
}

/// On a sound board, a move that `try_make_move` accepts survives being
/// stored in 8 bits and rebuilt from the position's free and "from" spots;
/// so does "Second Best!".
pub proof fn lemma_tt_move_round_trip(p: PositionModel, m: BitboardMove)
    requires
        board_ok(p.played, p.our),
        m matches BitboardMove::StoneMove(s) ==> legal_stone_move(p, s),
    ensures
        tt_decode(p, tt_encode(p, m)) == m,
{
    lemma_encoding_bits(8, 0);
    match m {
        BitboardMove::SecondBest => {},
        BitboardMove::StoneMove(s) => {
            let (from, to) = choose|from: Option<usize>, to: usize| #[trigger] p.stone_move_outcome(from, to)
                == Ok::<u64, MoveFailed>(s);
            let played = p.played;
            let free = free_spots_of(played);
            let top = top_spots_of(played);
            let fs = from_spots_of(played, p.our);
            lemma_sound_spots(played, p.our);
            let t = to as u64;
            lemma_spot_algebra(column_mask_of(t), match from {
                Some(f) => column_mask_of(f as u64),
                None => 0,
            }, free, top, fs);
            assert forall|j: nat| 0 <= j < t implies #[trigger] ((column_mask_of(t) & free) & (0xfu64 << (4 * j) as u64)) == 0 by {
                lemma_column_in_lower_copy(t, j as u64, free);
            }
            lemma_column_in_lower_copy(t, t, free);
            lemma_lowest_column_is(column_mask_of(t) & free, t as nat, 0);
            match from {
                None => {
                    assert(s & fs == 0);
                    lemma_lowest_column_none(0);
                    lemma_encoding_bits(8, t as u8);
                },
                Some(f) => {
                    let ff = f as u64;
                    lemma_from_column(played, p.our, ff);
                    assert((column_mask_of(ff) & top) & fs == column_mask_of(ff) & top);
                    assert forall|j: nat| 0 <= j < ff implies #[trigger] ((column_mask_of(ff) & top) & (0xfu64 << (4 * j) as u64)) == 0 by {
                        lemma_column_in_lower_copy(ff, j as u64, top);
                    }
                    lemma_column_in_lower_copy(ff, ff, top);
                    assert(column_mask_of(ff) & top != 0) by {
                        assert((column_mask_of(ff) & top) & p.our != 0);
                        let x = column_mask_of(ff) & top;
                        let o = p.our;
                        assert(x & o != 0 ==> x != 0) by (bit_vector);
                    }
                    lemma_lowest_column_is(column_mask_of(ff) & top, ff as nat, 0);
                    lemma_encoding_bits(f as u8, t as u8);
                },
            }
        },
    }
}

impl TTMove {
    pub closed spec fn bits(self) -> u8 {
        self.0
    }

    fn from(&self) -> (r: Option<usize>)
        ensures
            r == tt_from(self.bits()),
            r matches Some(f) ==> f < 16,
    {
        let b = self.0;
        assert(b & 0x0f < 16) by (bit_vector);
        let from_stack = (self.0 & 0x0f) as usize;
        if from_stack == 8 {
            return None;
        }
        Some(from_stack)
    }

    fn to(&self) -> (r: usize)
        ensures
            r == tt_to(self.bits()),
            r < 8,
    {
        let b = self.0;
        assert(((b & 0x70) >> 4u8) < 8) by (bit_vector);
        ((self.0 & 0x70) >> 4u8) as usize
    }

    fn is_second_best(&self) -> (r: bool)
        ensures
            r == tt_is_second_best(self.bits()),
    {
        (self.0 & 0x80) != 0
    }

    /// Encode a move of the given position.
    pub fn from_bitboard_move(pos: &Position, bmove: BitboardMove) -> (r: Self)
        ensures
            r.bits() == tt_encode(pos@, bmove),
    {
        match bmove {
            BitboardMove::SecondBest => TTMove(0x80),
            BitboardMove::StoneMove(smove) => {
                let from_stack = lowest_column_of(smove & pos.from_spots(true));
                let to_stack = lowest_column_of(smove & pos.free_spots());
                TTMove(from_stack | ((to_stack & 7) << 4u8))
            },
        }
    }

    /// The move this encoding stands for on the given position.
    pub fn to_bitboard_move(self, pos: &Position) -> (r: BitboardMove)
        ensures
            r == tt_decode(pos@, self.bits()),
    {
        if self.is_second_best() {
            return BitboardMove::SecondBest;
        }
        let smove = pos.free_spots() & Position::column_mask(self.to());
        match self.from() {
            Some(from) => BitboardMove::StoneMove(
                smove | (pos.from_spots(true) & Position::column_mask(from)),
            ),
            None => BitboardMove::StoneMove(smove),
        }
    }

    /// The move with its stacks.
    pub fn to_player_move(self) -> (r: PlayerMove)
        ensures
            r == (if tt_is_second_best(self.bits()) {
                PlayerMove::SecondBest
            } else {
                PlayerMove::StoneMove { from: tt_from(self.bits()), to: tt_to(self.bits()) }
            }),
    {
        if self.is_second_best() {
            return PlayerMove::SecondBest;
        }
        PlayerMove::StoneMove { from: self.from(), to: self.to() }
    }
}

/// What a stored score says.
#[derive(Debug, Clone, Copy, PartialEq, Eq, Structural)]
pub enum EntryType {
    Undetermined,
    /// The score is the value of the position at the stored depth.
    Exact,
    /// The value is at least the score.
    LowerBound,
    /// The value is at most the score.
    UpperBound,
}

/// A row of the table.
#[derive(Debug, Clone, Copy, PartialEq, Eq, Structural)]
pub struct Entry {
    score: i16,
    best_move: TTMove,
    entry_type: EntryType,
    ply: u8,
}

/// A stored score, as read back at the given ply: mate scores are stored
/// relative to the position and read relative to the root.
pub open spec fn read_score(stored: int, ply: int) -> int {
    if stored >= 490 {
        stored - ply
    } else if stored <= -490 {
        stored + ply
    } else {
        stored
    }
}

/// A score as stored at the given ply (kept within 16 bits).
pub open spec fn stored_score(score: int, ply: int) -> i16 {
    let s = match decoded(score, ply) {
        ExplainableEval::Undetermined(_) => score,
        ExplainableEval::Win(_) => score + ply,
        ExplainableEval::Loss(_) => score - ply,
    };
    if s < i16::MIN {
        i16::MIN
    } else if s > i16::MAX {
        i16::MAX
    } else {
        s as i16
    }
}

impl Entry {
    pub closed spec fn score_bits(self) -> i16 {
        self.score
    }

    pub closed spec fn move_bits(self) -> u8 {
        self.best_move.0
    }

    pub closed spec fn kind(self) -> EntryType {
        self.entry_type
    }

    pub closed spec fn depth(self) -> u8 {
        self.ply
    }

    /// The empty row.
    pub fn empty() -> (r: Self)
        ensures
            r.score_bits() == 0,
            r.move_bits() == 0,
            r.kind() == EntryType::Undetermined,
            r.depth() == 0,
    {
        Entry { score: 0, best_move: TTMove(0), entry_type: EntryType::Undetermined, ply: 0 }
    }

    /// A row holding a result for the given position.
    fn new(pos: &Position, score: i16, best_move: BitboardMove, entry_type: EntryType, ply: u8) -> (r: Self)
        ensures
            r.score_bits() == score,
            r.move_bits() == tt_encode(pos@, best_move),
            r.kind() == entry_type,
            r.depth() == ply,
    {
        Entry { score, best_move: TTMove::from_bitboard_move(pos, best_move), entry_type, ply }
    }

    /// The stored score, read at the given ply.
    pub fn score(&self, ply: isize) -> (r: isize)
        requires
            0 <= ply <= Position::MAX_MOVES,
        ensures
            r == read_score(self.score_bits() as int, ply as int),
            i16::MIN <= r <= i16::MAX,
    {
        let s = self.score as isize;
        if s >= 490 {
            s - ply
        } else if s <= -490 {
            s + ply
        } else {
            s
        }
    }

    /// The stored best move, on the given position.
    pub fn best_move(&self, pos: &Position) -> (r: BitboardMove)
        ensures
            r == tt_decode(pos@, self.move_bits()),
    {
        self.best_move.to_bitboard_move(pos)
    }

    /// The stored best move with its stacks, for printing.
    pub fn best_move_for_printing(&self) -> (r: PlayerMove)
        ensures
            r == (if tt_is_second_best(self.move_bits()) {
                PlayerMove::SecondBest
            } else {
                PlayerMove::StoneMove { from: tt_from(self.move_bits()), to: tt_to(self.move_bits()) }
            }),
    {
        self.best_move.to_player_move()
    }

    pub fn entry_type(&self) -> (r: EntryType)
        ensures
            r == self.kind(),
    {
        self.entry_type
    }

    /// The depth of the search that stored the entry.
    pub fn ply(&self) -> (r: usize)
        ensures
            r == self.depth(),
    {
        self.ply as usize
    }
}

/// The key of a position: the stones of the side to move and the free spots
/// (from which both bitboards can be rebuilt), the upper copy of the last
/// stone move (a banned move counts), and a bit saying that "Second Best!"
/// is not allowed.
pub open spec fn key_of(p: PositionModel) -> u64 {
    let last_move_info: u64 = match p.last_stone_move() {
        Some(m) => m & !LOW_HALF,
        None => 0,
    };
    let second_best_info: u64 = if p.can_second_best() {
        last_move_info
    } else {
        last_move_info | (1u64 << 35u64)
    };
    second_best_info | ((p.our | free_spots_of(p.played)) & LOW_HALF)
}


/// `n` has a divisor `d` with `min <= d < max` and `d * d <= n`.
pub open spec fn has_factor_spec(n: nat, min: nat, max: nat) -> bool {
    exists|d: nat| min <= d < max && d * d <= n && #[trigger] (n % d) == 0
}

/// The middle of `min..max`.
fn med(min: u64, max: u64) -> (r: u64)
    requires
        min <= max <= 0x1_0000_0000,
    ensures
        r == (min + max) / 2,
{
    (min + max) / 2
}

/// Whether `n` has a divisor `d` with `min <= d < max` and `d * d <= n`,
/// found by halving the range.
pub fn has_factor(n: u64, min: u64, max: u64) -> (r: bool)
    requires
        1 <= min < max <= 0x1_0000_0000,
        n < 0x1_0000_0000,
    ensures
        r == has_factor_spec(n as nat, min as nat, max as nat),
    decreases max - min,
{
    assert(min * min < 0x1_0000_0000 * 0x1_0000_0000) by (nonlinear_arith)
        requires
            min < 0x1_0000_0000,
    ;
    if min * min > n {
        assert forall|d: nat| min <= d < max implies !(d * d <= n && #[trigger] ((n as nat) % d) == 0) by {
            assert(d * d >= min * min) by (nonlinear_arith)
                requires
                    d >= min,
            ;
        }
        false
    } else if min + 1 >= max {
        let r = n % min == 0;
        if r {
            assert(min * min <= n && ((n as nat) % (min as nat)) == 0);
        }
        r
    } else {
        let m = med(min, max);
        let left = has_factor(n, min, m);
        let right = has_factor(n, m, max);
        proof {
            if left {
                let d = choose|d: nat| min <= d < m && d * d <= n && #[trigger] ((n as nat) % d) == 0;
                assert(min <= d < max && d * d <= n && ((n as nat) % d) == 0);
            }
            if right {
                let d = choose|d: nat| m <= d < max && d * d <= n && #[trigger] ((n as nat) % d) == 0;
                assert(min <= d < max && d * d <= n && ((n as nat) % d) == 0);
            }
            if !left && !right {
                assert forall|d: nat| min <= d < max implies !(d * d <= n && #[trigger] ((n as nat) % d) == 0) by {
                    if d < m {
                        assert(!(min <= d < m && d * d <= n && ((n as nat) % d) == 0));
                    } else {
                        assert(!(m <= d < max && d * d <= n && ((n as nat) % d) == 0));
                    }
                }
            }
        }
        left || right
    }
}

/// The first number from `n` on without a divisor `d`, `2 <= d`,
/// `d * d <= n` (the first prime), searched up to `2n`.
pub fn next_prime(n: u64) -> (r: u64)
    requires
        3 <= n <= 0x8000_0000,
    ensures
        n <= r <= 2 * n,
        r < 2 * n ==> !has_factor_spec(r as nat, 2, r as nat),
        forall|k: nat| n <= k < r ==> #[trigger] has_factor_spec(k, 2, k),
{
    let mut c = n;
    while c < 2 * n && has_factor(c, 2, c)
        invariant
            n <= c <= 2 * n,
            3 <= n <= 0x8000_0000,
            forall|k: nat| n <= k < c ==> #[trigger] has_factor_spec(k, 2, k),
        decreases 2 * n - c,
    {
        c = c + 1;
    }
    c
}

/// The row of a key in a table of `size` rows.
pub open spec fn table_index(size: nat, key: u64) -> int {
    (key as int) % (size as int)
}

/// A size for the table: the first number from `2^23` on without a
/// divisor `d`, `2 <= d`, `d * d <= size` (the first prime), looked for up
/// to `2^24`.
pub open spec fn table_size_ok(size: nat) -> bool {
    &&& 0x80_0000 <= size <= 0x100_0000
    &&& size < 0x100_0000 ==> !has_factor_spec(size, 2, size)
    &&& forall|k: nat| 0x80_0000 <= k < size ==> #[trigger] has_factor_spec(k, 2, k)
}

/// Two positions that agree on the bitboards, on the last stone move and
/// on whether "Second Best!" is allowed have the same key; two that differ
/// only in whether "Second Best!" is allowed have different keys.
pub proof fn lemma_key_determinism(p: PositionModel, q: PositionModel)
    requires
        p.played == q.played,
        p.our == q.our,
        p.last_stone_move() == q.last_stone_move(),
    ensures
        p.can_second_best() == q.can_second_best() ==> key_of(p) == key_of(q),
        (p.can_second_best() != q.can_second_best() && (p.last_stone_move() matches Some(
            m,
        ) ==> m & GUARD_MASK == 0)) ==> key_of(p) != key_of(q),
{
    let our = p.our;
    let played = p.played;
    let y = (our | free_spots_of(played)) & LOW_HALF;
    match p.last_stone_move() {
        Some(m) => {
            if m & GUARD_MASK == 0 {
                assert(((m & !LOW_HALF) | (1u64 << 35u64)) | y != (m & !LOW_HALF) | y)
                    by (bit_vector)
                    requires
                        m & GUARD_MASK == 0,
                        y == (our | free_spots_of(played)) & LOW_HALF,
                ;
            }
        },
        None => {
            assert((0u64 | (1u64 << 35u64)) | y != 0u64 | y) by (bit_vector)
                requires
                    y == (our | free_spots_of(played)) & LOW_HALF,
            ;
        },
    }
}
/// The contents of a table: the low key bits and the entry of each row.
pub struct TableModel {
    pub keys: Seq<u32>,
    pub entries: Seq<Entry>,
}

/// The empty row.
pub closed spec fn empty_entry() -> Entry {
    Entry { score: 0, best_move: TTMove(0), entry_type: EntryType::Undetermined, ply: 0 }
}

/// A fresh table of `size` rows: every row empty, with key bits that are
/// not the low bits of a key of that row.
pub open spec fn empty_table(size: nat) -> TableModel {
    TableModel {
        keys: Seq::new(size, |i: int| (size + 1) as u32),
        entries: Seq::new(size, |i: int| empty_entry()),
    }
}

/// There is one table size.
pub proof fn lemma_table_size_unique(a: nat, b: nat)
    requires
        table_size_ok(a),
        table_size_ok(b),
    ensures
        a == b,
{
    if a < b {
        assert(has_factor_spec(a, 2, a));
    } else if b < a {
        assert(has_factor_spec(b, 2, b));
    }
}

/// The row stored for a result.
pub closed spec fn stored_entry(p: PositionModel, score: int, m: BitboardMove, kind: EntryType, depth: nat) -> Entry {
    Entry {
        score: stored_score(score, p.num_moves as int),
        best_move: TTMove(tt_encode(p, m)),
        entry_type: kind,
        ply: depth as u8,
    }
}

/// The row of a position, if its stored key bits match.
pub open spec fn table_lookup(t: TableModel, p: PositionModel) -> Option<Entry> {
    let i = table_index(t.keys.len(), key_of(p));
    if t.keys[i] == key_of(p) as u32 {
        Some(t.entries[i])
    } else {
        None
    }
}

/// The table after storing a result for a position over its row.
pub open spec fn table_store(
    t: TableModel,
    p: PositionModel,
    score: int,
    m: BitboardMove,
    kind: EntryType,
    depth: nat,
) -> TableModel {
    let i = table_index(t.keys.len(), key_of(p));
    TableModel {
        keys: t.keys.update(i, key_of(p) as u32),
        entries: t.entries.update(i, stored_entry(p, score, m, kind, depth)),
    }
}

/// The table: rows and, beside them, the low 32 bits of each row's key.
/// With the row index (the key modulo a prime) the low 32 bits tell keys
/// apart (Chinese remainder theorem).
pub struct TranspositionTable {
    entries: Vec<Entry>,
    keys: Vec<u32>,
    /// The number of rows.
    size: usize,
}

impl TranspositionTable {
    pub closed spec fn wf(&self) -> bool {
        &&& self.entries@.len() == self.size
        &&& self.keys@.len() == self.size
        &&& table_size_ok(self.size as nat)
    }

    /// The contents of the table.
    pub closed spec fn model(&self) -> TableModel {
        TableModel { keys: self.keys@, entries: self.entries@ }
    }

    /// An empty table: every row holds key bits that are not the low bits
    /// of a key of that row.
    pub fn new() -> (r: Self)
        ensures
            r.wf(),
            table_size_ok(r.model().keys.len()),
            r.model() == empty_table(r.model().keys.len()),
    {
        let size = next_prime(0x80_0000) as usize;
        let mut entries: Vec<Entry> = Vec::new();
        let mut keys: Vec<u32> = Vec::new();
        let mut i: usize = 0;
        while i < size
            invariant
                i <= size,
                size <= 0x100_0000,
                entries@.len() == i,
                keys@.len() == i,
                forall|j: int| 0 <= j < i ==> #[trigger] keys@[j] == (size + 1) as u32,
                forall|j: int| 0 <= j < i ==> #[trigger] entries@[j] == empty_entry(),
            decreases size - i,
        {
            entries.push(Entry::empty());
            keys.push((size + 1) as u32);
            i = i + 1;
        }
        let r = TranspositionTable { entries, keys, size };
        assert(r.model().keys =~= empty_table(size as nat).keys);
        assert(r.model().entries =~= empty_table(size as nat).entries);
        r
    }

    /// The number of rows.
    pub fn size(&self) -> (r: usize)
        requires
            self.wf(),
        ensures
            r == self.model().keys.len(),
            table_size_ok(r as nat),
    {
        self.size
    }

    fn index(&self, key: u64) -> (r: usize)
        requires
            self.wf(),
        ensures
            r == table_index(self.model().keys.len(), key),
            r < self.model().keys.len(),
    {
        (key % (self.size as u64)) as usize
    }

    /// The key of a position.
    pub fn key(pos: &Position) -> (r: u64)
        requires
            pos@.wf(),
        ensures
            r == key_of(pos@),
    {
        let u32mask: u64 = LOW_HALF;
        let last_move_info: u64 = match pos.last_stone_move() {
            Some(smove) => smove & !u32mask,
            None => 0,
        };
        let second_best_info: u64 = if pos.can_second_best() {
            last_move_info
        } else {
            last_move_info | (1u64 << 35u64)
        };
        let pos_info = (pos.our_spots() | pos.free_spots()) & u32mask;
        second_best_info | pos_info
    }

    /// Store a result for a position, over whatever its row held.
    pub fn store(
        &mut self,
        pos: &Position,
        score: isize,
        best_move: BitboardMove,
        entry_type: EntryType,
        ply: usize,
    )
        requires
            old(self).wf(),
            pos@.wf(),
            ply <= 255,
        ensures
            final(self).wf(),
            final(self).model() == table_store(old(self).model(), pos@, score as int, best_move, entry_type, ply as nat),
    {
        let key = Self::key(pos);
        let index = self.index(key);
        let n = pos.ply() as isize;
        let wide = score as i128;
        let s: i128 = match decode_eval(score, n) {
            ExplainableEval::Undetermined(_) => wide,
            ExplainableEval::Win(_) => wide + n as i128,
            ExplainableEval::Loss(_) => wide - n as i128,
        };
        let stored: i16 = if s < i16::MIN as i128 {
            i16::MIN
        } else if s > i16::MAX as i128 {
            i16::MAX
        } else {
            s as i16
        };
        let entry = Entry::new(pos, stored, best_move, entry_type, ply as u8);
        self.entries.set(index, entry);
        self.keys.set(index, key as u32);
        assert(self.model().keys =~= table_store(old(self).model(), pos@, score as int, best_move, entry_type, ply as nat).keys);
        assert(self.model().entries =~= table_store(old(self).model(), pos@, score as int, best_move, entry_type, ply as nat).entries);
    }

    /// The row of a position, if its stored key bits match.
    pub fn get(&self, pos: &Position) -> (r: Option<Entry>)
        requires
            self.wf(),
            pos@.wf(),
        ensures
            r == table_lookup(self.model(), pos@),
    {
        let key = Self::key(pos);
        let index = self.index(key);
        if self.keys[index] == key as u32 {
            return Some(self.entries[index]);
        }
        None
    }
}

impl Default for TranspositionTable {
    fn default() -> (r: Self)
        ensures
            r.wf(),
    {
        Self::new()
    }
}

} // verus!
