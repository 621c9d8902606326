//! Bit-level layout of the board.
//!
//! The 8 stacks of height 3 are stored as 8 columns of 4 bits (3 spots and a
//! guard bit that stays clear). Two copies of this 32-bit layout sit next to
//! each other in a `u64`, so that four neighbouring stacks on the circle are
//! always four neighbouring columns of the bitboard.
use vstd::prelude::*;

verus! {

/// A set of spots: bit `4 * column + height`, columns 8..15 mirroring 0..7.
pub type Bitboard = u64;

/// A 1 on the bottom spot of each of the 16 columns.
pub const BOTTOM: u64 = 0x1111_1111_1111_1111;

/// The guard bit of each of the 16 columns.
pub const GUARD_MASK: u64 = 0x8888_8888_8888_8888;

/// A 1 on the bottom spot of the first four columns.
pub const BOTTOM_FOUR: u64 = 0x1111;

/// The lower copy of the board.
pub const LOW_HALF: u64 = 0xFFFF_FFFF;

/// The three spots of column `col % 8`, in both copies of the board.
pub open spec fn column_mask_of(col: u64) -> u64 {
    (7u64 << (4 * (col % 8)) as u64) | (7u64 << (4 * (col % 8) + 32) as u64)
}

/// The bottom spot of column `col` of the 16 columns.
pub open spec fn column_bottom_of(col: u64) -> u64 {
    1u64 << (4 * col) as u64
}

/// The empty spot just above each stack that is not full (the carry of the
/// addition stops at the guard bit of a full column).
pub open spec fn free_spots_of(played: u64) -> u64 {
    (BOTTOM + played) as u64
}

/// The highest occupied spot of each stack.
pub open spec fn top_spots_of(played: u64) -> u64 {
    played ^ ((played >> 1u64) & played)
}

/// The stones of one side: the side to move (`us`) or the other one.
pub open spec fn stones_of(played: u64, our: u64, us: bool) -> u64 {
    if us {
        our
    } else {
        played ^ our
    }
}

/// A 1 on the bottom spot of each column whose top stone is in `stones`.
pub open spec fn controlled_stacks_of(played: u64, stones: u64) -> u64 {
    let s = stones & top_spots_of(played);
    (s & BOTTOM) | ((s >> 1u64) & BOTTOM) | ((s >> 2u64) & BOTTOM)
}

/// The three spots of each column whose top stone is in `stones`.
pub open spec fn controlled_columns_of(played: u64, stones: u64) -> u64 {
    ((BOTTOM << 3u64) - controlled_stacks_of(played, stones)) as u64
}

/// The top spot of each column whose top stone is in `stones`.
pub open spec fn from_spots_of(played: u64, stones: u64) -> u64 {
    top_spots_of(played) & controlled_columns_of(played, stones)
}

/// A 1 on the bottom spot of each column that is not full.
pub open spec fn free_columns_of(played: u64) -> u64 {
    BOTTOM & !(played >> 2u64)
}

/// The free spots that have two stones of `our` right below them.
pub open spec fn vertical_alignment_spots_of(played: u64, our: u64) -> u64 {
    (our << 1u64) & (our << 2u64) & free_spots_of(played)
}

/// Three stones of `stones` on top of each other in one column.
pub open spec fn three_in_column(stones: u64) -> bool {
    (stones & (stones << 1u64) & (stones << 2u64)) != 0
}

/// The window of four columns starting at column `k`.
pub open spec fn four_window(k: u64) -> u64 {
    BOTTOM_FOUR << (4 * k) as u64
}

/// Four controlled columns in a row, starting at column `k`.
pub open spec fn four_at(controlled: u64, k: u64) -> bool {
    four_window(k) & controlled == four_window(k)
}

/// An alignment of `stones`: three in one stack, or four neighbouring stacks
/// (on the circle) topped by them.
pub open spec fn has_alignment_of(played: u64, stones: u64) -> bool {
    three_in_column(stones) || exists|k: u64|
        k < 12 && #[trigger] four_at(controlled_stacks_of(played, stones), k)
}

/// A board whose bitboards are sound: guard bits clear, the two copies equal,
/// every stack filled from the bottom, and the side to move's stones among
/// the played ones.
pub open spec fn board_ok(played: u64, our: u64) -> bool {
    &&& played & GUARD_MASK == 0
    &&& our & !played == 0
    &&& played >> 32u64 == played & LOW_HALF
    &&& our >> 32u64 == our & LOW_HALF
    &&& (played >> 1u64) & !played & 0x7777_7777_7777_7777u64 == 0
}

/// The "to" part of a stone move onto column `to`.
pub open spec fn to_part(played: u64, to: u64) -> u64 {
    column_mask_of(to) & free_spots_of(played)
}

/// The "from" part of a stone move taken from column `from`.
pub open spec fn from_part(played: u64, from: u64) -> u64 {
    column_mask_of(from) & top_spots_of(played)
}

/// The bitboard of a stone move: the free spot on stack `to`, and in the
/// second phase the top spot of stack `from`.
pub open spec fn stone_move_of(played: u64, from: Option<u64>, to: u64) -> u64 {
    match from {
        Some(f) => to_part(played, to) | from_part(played, f),
        None => to_part(played, to),
    }
}

/// XOR with the same value twice changes nothing.
pub proof fn lemma_xor_cancel()
    by (bit_vector)
    ensures
        forall|a: u64, b: u64| #[trigger] ((a ^ b) ^ b) == a,
{
}

/// A placement on a stack that is not full keeps a sound board sound.
pub proof fn lemma_placement_keeps_board_ok(played: u64, our: u64, to: u64)
    by (bit_vector)
    requires
        board_ok(played, our),
        to < 8,
        to_part(played, to) != 0,
    ensures
        board_ok(played ^ to_part(played, to), our ^ played),
{
}

/// Moving one of our top stones onto another stack that is not full keeps a
/// sound board sound.
pub proof fn lemma_shift_keeps_board_ok(played: u64, our: u64, from: u64, to: u64)
    by (bit_vector)
    requires
        board_ok(played, our),
        to < 8,
        from < 8,
        from != to,
        to_part(played, to) != 0,
        from_part(played, from) & our != 0,
    ensures
        board_ok(played ^ (to_part(played, to) | from_part(played, from)), our ^ played),
{
}

} // verus!
