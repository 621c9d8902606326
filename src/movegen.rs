//! Ordered enumeration of the legal moves of a position.
use vstd::prelude::*;
use crate::bitboard::{
    Bitboard, board_ok, column_mask_of, free_spots_of, from_spots_of, top_spots_of, to_part, from_part,
    vertical_alignment_spots_of,
};
use crate::replay::{
    lemma_first_column_of_column, lemma_nonzero_part, lemma_parts, lemma_top_free_disjoint,
};
use crate::position::{
    adjacent, legal_stone_move, player_move_on, stone_moves_barred, BitboardMove, MoveFailed,
    PlayerMove, Position, PositionModel,
};

verus! {

/// The spots of stage `s` (0: completing three in a stack, 1: onto stacks
/// not topped by our stone, 2: the rest). Together they are the free spots.
pub open spec fn stage_spots(p: PositionModel, s: nat) -> u64 {
    let va = vertical_alignment_spots_of(p.played, p.our);
    let rest = free_spots_of(p.played) & !va;
    let bad = from_spots_of(p.played, p.our) << 1u64;
    if s == 0 {
        va
    } else if s == 1 {
        rest & !bad
    } else {
        rest & bad
    }
}

/// The "from" stacks of a "to" stack, in the order they are tried: left,
/// right, opposite.
pub open spec fn source_of(i: nat, slot: nat) -> nat {
    if slot == 0 {
        (i + 7) % 8
    } else if slot == 1 {
        (i + 1) % 8
    } else {
        (i + 4) % 8
    }
}

/// A candidate is kept unless it is the banned move or the hint (which
/// comes first anyway).
pub open spec fn kept(p: PositionModel, hint: Option<BitboardMove>, c: u64) -> bool {
    p.banned_move() != Some(c) && hint != Some(BitboardMove::StoneMove(c))
}

/// Second-phase moves onto stack `i` from the sources `slot..3`.
pub open spec fn source_moves(p: PositionModel, hint: Option<BitboardMove>, i: nat, slot: nat) -> Seq<
    BitboardMove,
>
    decreases 3 - slot,
{
    if slot >= 3 {
        Seq::empty()
    } else {
        let f = source_of(i, slot);
        let c = to_part(p.played, i as u64) | from_part(p.played, f as u64);
        let rest = source_moves(p, hint, i, slot + 1);
        if column_mask_of(f as u64) & from_spots_of(p.played, p.our) != 0 && kept(p, hint, c) {
            seq![BitboardMove::StoneMove(c)] + rest
        } else {
            rest
        }
    }
}

/// The moves onto stack `i` in stage `s`.
pub open spec fn column_moves(p: PositionModel, hint: Option<BitboardMove>, s: nat, i: nat) -> Seq<
    BitboardMove,
> {
    if column_mask_of(i as u64) & stage_spots(p, s) == 0 {
        Seq::empty()
    } else if !p.is_second_phase() {
        let c = to_part(p.played, i as u64);
        if kept(p, hint, c) {
            seq![BitboardMove::StoneMove(c)]
        } else {
            Seq::empty()
        }
    } else {
        source_moves(p, hint, i, 0)
    }
}

/// The moves of stage `s` onto stacks `i..8`.
pub open spec fn stage_moves(p: PositionModel, hint: Option<BitboardMove>, s: nat, i: nat) -> Seq<
    BitboardMove,
>
    decreases 8 - i,
{
    if i >= 8 {
        Seq::empty()
    } else {
        column_moves(p, hint, s, i) + stage_moves(p, hint, s, i + 1)
    }
}

/// The hint, if it is a move of this position: "Second Best!" where it is
/// allowed, or a stone move that `try_make_move` accepts with the stacks
/// read from it.
pub open spec fn valid_hint(p: PositionModel, pv: Option<BitboardMove>) -> Option<BitboardMove> {
    match pv {
        Some(BitboardMove::SecondBest) => if p.can_second_best() {
            pv
        } else {
            None
        },
        Some(BitboardMove::StoneMove(m)) => match player_move_on(p.played, m) {
            PlayerMove::StoneMove { from, to } => if p.stone_move_outcome(from, to) == Ok::<
                u64,
                MoveFailed,
            >(m) {
                pv
            } else {
                None
            },
            PlayerMove::SecondBest => None,
        },
        None => None,
    }
}

/// The moves of a position in the order they are handed out: the hint,
/// "Second Best!", then the three stages, each stack by stack from 0 to 7
/// and, in the second phase, each "to" stack's sources left, right,
/// opposite.
pub open spec fn move_sequence(p: PositionModel, pv: Option<BitboardMove>) -> Seq<BitboardMove> {
    let h = valid_hint(p, pv);
    let head: Seq<BitboardMove> = match h {
        Some(m) => seq![m],
        None => Seq::empty(),
    };
    let sb: Seq<BitboardMove> = if p.can_second_best() && h != Some(BitboardMove::SecondBest) {
        seq![BitboardMove::SecondBest]
    } else {
        Seq::empty()
    };
    head + sb + stage_moves(p, h, 0, 0) + stage_moves(p, h, 1, 0) + stage_moves(p, h, 2, 0)
}

/// A move handed out is "Second Best!" where allowed, or a stone move that
/// is not banned and that `try_make_move` accepts unless no stone move is
/// allowed.
pub open spec fn move_ok(p: PositionModel, m: BitboardMove) -> bool {
    match m {
        BitboardMove::SecondBest => p.can_second_best(),
        BitboardMove::StoneMove(s) => p.banned_move() != Some(s) && (!stone_moves_barred(p)
            ==> legal_stone_move(p, s)),
    }
}

pub open spec fn all_ok(p: PositionModel, ms: Seq<BitboardMove>) -> bool {
    forall|k: int| 0 <= k < ms.len() ==> #[trigger] move_ok(p, ms[k])
}

/// A stone move taken from a stack whose top spot is among the "from"
/// spots of a side takes one of that side's stones.
proof fn lemma_from_ours(played: u64, our: u64, f: u64)
    by (bit_vector)
    requires
        f < 8,
        (column_mask_of(f) & from_spots_of(played, our)) != 0,
    ensures
        (column_mask_of(f) & top_spots_of(played)) & our != 0,
{
}

/// A stack whose top stone is ours has its top spot among our "from" spots.
proof fn lemma_ours_from(played: u64, our: u64, f: u64)
    by (bit_vector)
    requires
        f < 8,
        (column_mask_of(f) & top_spots_of(played)) & our != 0,
    ensures
        (column_mask_of(f) & from_spots_of(played, our)) != 0,
{
}

/// Stage spots lie among the free spots, and every free spot is in a stage.
proof fn lemma_stages_cover(c: u64, free: u64, va0: u64, bad: u64)
    by (bit_vector)
    ensures
        (va0 & free) & !free == 0,
        ((free & !(va0 & free)) & !bad) & !free == 0,
        ((free & !(va0 & free)) & bad) & !free == 0,
        c & free != 0 ==> (c & (va0 & free) != 0 || c & ((free & !(va0 & free)) & !bad) != 0 || c
            & ((free & !(va0 & free)) & bad) != 0),
{
}

/// A column meeting spots that lie among the free spots has a free spot.
proof fn lemma_candidate(c: u64, t: u64, f: u64)
    by (bit_vector)
    requires
        (c & t) != 0,
        t & !f == 0,
    ensures
        (c & f) != 0,
{
}

proof fn lemma_stage_within_free(p: PositionModel, s: nat)
    ensures
        stage_spots(p, s) & !free_spots_of(p.played) == 0,
{
    let our = p.our;
    let va0 = (our << 1u64) & (our << 2u64);
    assert(vertical_alignment_spots_of(p.played, p.our) == va0 & free_spots_of(p.played));
    lemma_stages_cover(0, free_spots_of(p.played), va0, from_spots_of(p.played, p.our) << 1u64);
}

proof fn lemma_concat_ok(p: PositionModel, a: Seq<BitboardMove>, b: Seq<BitboardMove>)
    requires
        all_ok(p, a),
        all_ok(p, b),
    ensures
        all_ok(p, a + b),
{
    assert forall|k: int| 0 <= k < (a + b).len() implies #[trigger] move_ok(p, (a + b)[k]) by {
        if k < a.len() {
            assert((a + b)[k] == a[k]);
        } else {
            assert((a + b)[k] == b[k - a.len()]);
        }
    }
}

proof fn lemma_source_moves_ok(p: PositionModel, hint: Option<BitboardMove>, s: nat, i: nat, slot: nat)
    requires
        i < 8,
        p.is_second_phase(),
        column_mask_of(i as u64) & stage_spots(p, s) != 0,
    ensures
        all_ok(p, source_moves(p, hint, i, slot)),
    decreases 3 - slot,
{
    if slot < 3 {
        lemma_source_moves_ok(p, hint, s, i, slot + 1);
        let f = source_of(i, slot);
        let c = to_part(p.played, i as u64) | from_part(p.played, f as u64);
        if column_mask_of(f as u64) & from_spots_of(p.played, p.our) != 0 && kept(p, hint, c) {
            lemma_stage_within_free(p, s);
            lemma_candidate(column_mask_of(i as u64), stage_spots(p, s), free_spots_of(p.played));
            lemma_from_ours(p.played, p.our, f as u64);
            assert(adjacent(f, i));
            if !stone_moves_barred(p) {
                assert(p.stone_move_outcome(Some(f as usize), i as usize) == Ok::<u64, MoveFailed>(c));
            }
            assert(move_ok(p, BitboardMove::StoneMove(c)));
            let one: Seq<BitboardMove> = seq![BitboardMove::StoneMove(c)];
            assert(all_ok(p, one));
            lemma_concat_ok(p, one, source_moves(p, hint, i, slot + 1));
        }
    }
}

proof fn lemma_stage_moves_ok(p: PositionModel, hint: Option<BitboardMove>, s: nat, i: nat)
    ensures
        all_ok(p, stage_moves(p, hint, s, i)),
    decreases 8 - i,
{
    if i < 8 {
        lemma_stage_moves_ok(p, hint, s, i + 1);
        let col = column_moves(p, hint, s, i);
        if column_mask_of(i as u64) & stage_spots(p, s) != 0 {
            if !p.is_second_phase() {
                let c = to_part(p.played, i as u64);
                if kept(p, hint, c) {
                    lemma_stage_within_free(p, s);
                    lemma_candidate(column_mask_of(i as u64), stage_spots(p, s), free_spots_of(p.played));
                    if !stone_moves_barred(p) {
                        assert(p.stone_move_outcome(None, i as usize) == Ok::<u64, MoveFailed>(c));
                    }
                    assert(move_ok(p, col[0]));
                }
            } else {
                lemma_source_moves_ok(p, hint, s, i, 0);
            }
        }
        lemma_concat_ok(p, col, stage_moves(p, hint, s, i + 1));
    }
}

/// Every move of the sequence is one the position allows, and none is
/// the banned move.
pub proof fn lemma_sequence_sound(p: PositionModel, pv: Option<BitboardMove>)
    ensures
        all_ok(p, move_sequence(p, pv)),
{
    let h = valid_hint(p, pv);
    let head: Seq<BitboardMove> = match h {
        Some(m) => seq![m],
        None => Seq::empty(),
    };
    let sb: Seq<BitboardMove> = if p.can_second_best() && h != Some(BitboardMove::SecondBest) {
        seq![BitboardMove::SecondBest]
    } else {
        Seq::empty()
    };
    if let Some(BitboardMove::StoneMove(m)) = h {
        if let PlayerMove::StoneMove { from, to } = player_move_on(p.played, m) {
            assert(p.stone_move_outcome(from, to) == Ok::<u64, MoveFailed>(m));
        }
    }
    assert(all_ok(p, head));
    assert(all_ok(p, sb));
    lemma_stage_moves_ok(p, h, 0, 0);
    lemma_stage_moves_ok(p, h, 1, 0);
    lemma_stage_moves_ok(p, h, 2, 0);
    lemma_concat_ok(p, head, sb);
    lemma_concat_ok(p, head + sb, stage_moves(p, h, 0, 0));
    lemma_concat_ok(p, head + sb + stage_moves(p, h, 0, 0), stage_moves(p, h, 1, 0));
    lemma_concat_ok(
        p,
        head + sb + stage_moves(p, h, 0, 0) + stage_moves(p, h, 1, 0),
        stage_moves(p, h, 2, 0),
    );
}

proof fn lemma_stage_contains(p: PositionModel, hint: Option<BitboardMove>, s: nat, i: nat, j: nat, m: BitboardMove)
    requires
        i <= j < 8,
        column_moves(p, hint, s, j).contains(m),
    ensures
        stage_moves(p, hint, s, i).contains(m),
    decreases j - i,
{
    let col = column_moves(p, hint, s, i);
    let rest = stage_moves(p, hint, s, i + 1);
    if i < j {
        lemma_stage_contains(p, hint, s, i + 1, j, m);
        let k = choose|k: int| 0 <= k < rest.len() && rest[k] == m;
        assert((col + rest)[col.len() + k] == m);
    } else {
        let k = choose|k: int| 0 <= k < col.len() && col[k] == m;
        assert((col + rest)[k] == m);
    }
}

proof fn lemma_sources_contain(p: PositionModel, hint: Option<BitboardMove>, i: nat, slot: nat, sl: nat)
    requires
        slot <= sl < 3,
        column_mask_of(source_of(i, sl) as u64) & from_spots_of(p.played, p.our) != 0,
        kept(p, hint, to_part(p.played, i as u64) | from_part(p.played, source_of(i, sl) as u64)),
    ensures
        source_moves(p, hint, i, slot).contains(
            BitboardMove::StoneMove(to_part(p.played, i as u64) | from_part(p.played, source_of(i, sl) as u64)),
        ),
    decreases sl - slot,
{
    let m = BitboardMove::StoneMove(to_part(p.played, i as u64) | from_part(p.played, source_of(i, sl) as u64));
    let rest = source_moves(p, hint, i, slot + 1);
    if slot < sl {
        lemma_sources_contain(p, hint, i, slot + 1, sl);
        let k = choose|k: int| 0 <= k < rest.len() && rest[k] == m;
        let f = source_of(i, slot);
        let c = to_part(p.played, i as u64) | from_part(p.played, f as u64);
        if column_mask_of(f as u64) & from_spots_of(p.played, p.our) != 0 && kept(p, hint, c) {
            assert((seq![BitboardMove::StoneMove(c)] + rest)[k + 1] == m);
        }
    } else {
        assert((seq![m] + rest)[0] == m);
    }
}

/// What an accepted stone move is made of.
proof fn lemma_outcome_facts(p: PositionModel, from: Option<usize>, to: usize, c: u64)
    requires
        p.stone_move_outcome(from, to) == Ok::<u64, MoveFailed>(c),
    ensures
        to < 8,
        to_part(p.played, to as u64) != 0,
        p.banned_move() != Some(c),
        !p.is_second_phase() ==> from is None && c == to_part(p.played, to as u64),
        p.is_second_phase() ==> (from matches Some(f) && f < 8 && adjacent(f as nat, to as nat)
            && from_part(p.played, f as u64) & p.our != 0 && c == (to_part(p.played, to as u64)
            | from_part(p.played, f as u64))),
{
}

/// Every free spot is in a stage.
proof fn lemma_column_staged(p: PositionModel, i: nat) -> (s: nat)
    requires
        i < 8,
        to_part(p.played, i as u64) != 0,
    ensures
        s < 3,
        column_mask_of(i as u64) & stage_spots(p, s) != 0,
{
    let free = free_spots_of(p.played);
    let our = p.our;
    let va0 = (our << 1u64) & (our << 2u64);
    assert(vertical_alignment_spots_of(p.played, p.our) == va0 & free);
    lemma_stages_cover(column_mask_of(i as u64), free, va0, from_spots_of(p.played, p.our) << 1u64);
    if column_mask_of(i as u64) & stage_spots(p, 0) != 0 {
        0
    } else if column_mask_of(i as u64) & stage_spots(p, 1) != 0 {
        1
    } else {
        2
    }
}

/// A second-phase move from an adjacent or opposite stack we top is among
/// the moves onto its "to" stack.
proof fn lemma_shift_in_column(p: PositionModel, h: Option<BitboardMove>, s: nat, i: nat, f: nat)
    requires
        i < 8,
        f < 8,
        p.is_second_phase(),
        adjacent(f, i),
        from_part(p.played, f as u64) & p.our != 0,
        column_mask_of(i as u64) & stage_spots(p, s) != 0,
        kept(p, h, to_part(p.played, i as u64) | from_part(p.played, f as u64)),
    ensures
        column_moves(p, h, s, i).contains(
            BitboardMove::StoneMove(to_part(p.played, i as u64) | from_part(p.played, f as u64)),
        ),
{
    lemma_ours_from(p.played, p.our, f as u64);
    let sl: nat = if f == (i + 7) % 8 {
        0
    } else if f == (i + 1) % 8 {
        1
    } else {
        2
    };
    assert(source_of(i, sl) == f);
    lemma_sources_contain(p, h, i, 0, sl);
}

/// An accepted stone move other than the hint is in one of the stages.
proof fn lemma_stone_in_some_stage(p: PositionModel, h: Option<BitboardMove>, c: u64) -> (s: nat)
    requires
        legal_stone_move(p, c),
        h != Some(BitboardMove::StoneMove(c)),
    ensures
        s < 3,
        stage_moves(p, h, s, 0).contains(BitboardMove::StoneMove(c)),
{
    let m = BitboardMove::StoneMove(c);
    let (from, to) = choose|from: Option<usize>, to: usize| #[trigger] p.stone_move_outcome(from, to)
        == Ok::<u64, MoveFailed>(c);
    lemma_outcome_facts(p, from, to, c);
    let i = to as nat;
    let s = lemma_column_staged(p, i);
    assert(kept(p, h, c));
    if !p.is_second_phase() {
        assert(column_moves(p, h, s, i)[0] == m);
    } else {
        let f = from->0;
        lemma_shift_in_column(p, h, s, i, f as nat);
    }
    lemma_stage_contains(p, h, s, 0, i, m);
    s
}

/// Every stone move that `try_make_move` accepts is in the sequence, and
/// so is "Second Best!" where it is allowed.
pub proof fn lemma_sequence_complete(p: PositionModel, pv: Option<BitboardMove>, m: BitboardMove)
    requires
        match m {
            BitboardMove::SecondBest => p.can_second_best(),
            BitboardMove::StoneMove(s) => legal_stone_move(p, s),
        },
    ensures
        move_sequence(p, pv).contains(m),
{
    let h = valid_hint(p, pv);
    let head: Seq<BitboardMove> = match h {
        Some(x) => seq![x],
        None => Seq::empty(),
    };
    let sb: Seq<BitboardMove> = if p.can_second_best() && h != Some(BitboardMove::SecondBest) {
        seq![BitboardMove::SecondBest]
    } else {
        Seq::empty()
    };
    let st0 = stage_moves(p, h, 0, 0);
    let st1 = stage_moves(p, h, 1, 0);
    let st2 = stage_moves(p, h, 2, 0);
    let all = move_sequence(p, pv);
    assert(all == head + sb + st0 + st1 + st2);
    if h == Some(m) {
        assert(all[0] == m);
        return;
    }
    match m {
        BitboardMove::SecondBest => {
            assert(all[head.len() as int] == m);
        },
        BitboardMove::StoneMove(c) => {
            let s = lemma_stone_in_some_stage(p, h, c);
            let st = stage_moves(p, h, s, 0);
            let k = choose|k: int| 0 <= k < st.len() && st[k] == m;
            if s == 0 {
                assert(all[head.len() + sb.len() + k] == m);
            } else if s == 1 {
                assert(all[head.len() + sb.len() + st0.len() + k] == m);
            } else {
                assert(all[head.len() + sb.len() + st0.len() + st1.len() + k] == m);
            }
        },
    }
}

/// Stage moves are stone moves other than the hint.
pub open spec fn plain_moves(hint: Option<BitboardMove>, ms: Seq<BitboardMove>) -> bool {
    forall|k: int| 0 <= k < ms.len() ==> (#[trigger] ms[k]) is StoneMove && Some(ms[k]) != hint
}

proof fn lemma_concat_plain(hint: Option<BitboardMove>, a: Seq<BitboardMove>, b: Seq<BitboardMove>)
    requires
        plain_moves(hint, a),
        plain_moves(hint, b),
    ensures
        plain_moves(hint, a + b),
{
    assert forall|k: int| 0 <= k < (a + b).len() implies (#[trigger] (a + b)[k]) is StoneMove && Some(
        (a + b)[k],
    ) != hint by {
        if k < a.len() {
            assert((a + b)[k] == a[k]);
        } else {
            assert((a + b)[k] == b[k - a.len()]);
        }
    }
}

proof fn lemma_source_moves_plain(p: PositionModel, hint: Option<BitboardMove>, i: nat, slot: nat)
    ensures
        plain_moves(hint, source_moves(p, hint, i, slot)),
    decreases 3 - slot,
{
    if slot < 3 {
        lemma_source_moves_plain(p, hint, i, slot + 1);
        let f = source_of(i, slot);
        let c = to_part(p.played, i as u64) | from_part(p.played, f as u64);
        if column_mask_of(f as u64) & from_spots_of(p.played, p.our) != 0 && kept(p, hint, c) {
            let one: Seq<BitboardMove> = seq![BitboardMove::StoneMove(c)];
            assert(plain_moves(hint, one));
            lemma_concat_plain(hint, one, source_moves(p, hint, i, slot + 1));
        }
    }
}

proof fn lemma_stage_moves_plain(p: PositionModel, hint: Option<BitboardMove>, s: nat, i: nat)
    ensures
        plain_moves(hint, stage_moves(p, hint, s, i)),
    decreases 8 - i,
{
    if i < 8 {
        lemma_stage_moves_plain(p, hint, s, i + 1);
        lemma_source_moves_plain(p, hint, i, 0);
        let col = column_moves(p, hint, s, i);
        assert(plain_moves(hint, col));
        lemma_concat_plain(hint, col, stage_moves(p, hint, s, i + 1));
    }
}

/// The hint, if it is a move of the position, comes first and never again;
/// "Second Best!" comes at most once, in the first two places.
pub proof fn lemma_sequence_order(p: PositionModel, pv: Option<BitboardMove>)
    ensures
        valid_hint(p, pv) matches Some(h) ==> move_sequence(p, pv)[0] == h,
        forall|k: int|
            0 < k < move_sequence(p, pv).len() ==> Some(#[trigger] move_sequence(p, pv)[k])
                != valid_hint(p, pv) || valid_hint(p, pv) is None,
        forall|k: int|
            1 < k < move_sequence(p, pv).len() ==> (#[trigger] move_sequence(p, pv)[k]) is StoneMove,
        forall|j: int, k: int|
            0 <= j < k < move_sequence(p, pv).len() && #[trigger] move_sequence(p, pv)[j]
                == BitboardMove::SecondBest ==> #[trigger] move_sequence(p, pv)[k]
                != BitboardMove::SecondBest,
{
    let h = valid_hint(p, pv);
    let head: Seq<BitboardMove> = match h {
        Some(x) => seq![x],
        None => Seq::empty(),
    };
    let sb: Seq<BitboardMove> = if p.can_second_best() && h != Some(BitboardMove::SecondBest) {
        seq![BitboardMove::SecondBest]
    } else {
        Seq::empty()
    };
    lemma_stage_moves_plain(p, h, 0, 0);
    lemma_stage_moves_plain(p, h, 1, 0);
    lemma_stage_moves_plain(p, h, 2, 0);
    let st = stage_moves(p, h, 0, 0) + stage_moves(p, h, 1, 0) + stage_moves(p, h, 2, 0);
    lemma_concat_plain(h, stage_moves(p, h, 0, 0), stage_moves(p, h, 1, 0));
    lemma_concat_plain(h, stage_moves(p, h, 0, 0) + stage_moves(p, h, 1, 0), stage_moves(p, h, 2, 0));
    let all = move_sequence(p, pv);
    assert(all =~= head + sb + st);
    let n0 = head.len() + sb.len();
    assert forall|k: int| n0 <= k < all.len() implies (#[trigger] all[k]) is StoneMove && Some(all[k])
        != h by {
        assert(all[k] == st[k - n0]);
    }
}

/// On a sound board no stack is in two stages.
proof fn lemma_stage_exclusive(played: u64, our: u64, i: u64)
    by (bit_vector)
    requires
        board_ok(played, our),
        i < 8,
    ensures
        !((column_mask_of(i) & vertical_alignment_spots_of(played, our)) != 0 && (column_mask_of(i)
            & ((free_spots_of(played) & !vertical_alignment_spots_of(played, our)) & !(from_spots_of(
            played,
            our,
        ) << 1u64))) != 0),
        !((column_mask_of(i) & vertical_alignment_spots_of(played, our)) != 0 && (column_mask_of(i)
            & ((free_spots_of(played) & !vertical_alignment_spots_of(played, our)) & (from_spots_of(
            played,
            our,
        ) << 1u64))) != 0),
        !((column_mask_of(i) & ((free_spots_of(played) & !vertical_alignment_spots_of(played, our))
            & !(from_spots_of(played, our) << 1u64))) != 0 && (column_mask_of(i) & ((free_spots_of(
            played,
        ) & !vertical_alignment_spots_of(played, our)) & (from_spots_of(played, our) << 1u64))) != 0),
{
}

/// The stacks of a move, read from its bitboard.
pub open spec fn stacks_of(p: PositionModel, m: BitboardMove) -> PlayerMove {
    match m {
        BitboardMove::SecondBest => PlayerMove::SecondBest,
        BitboardMove::StoneMove(c) => player_move_on(p.played, c),
    }
}

/// Each move of `ms` is a stone move onto a stack of stage `s` from `lo`
/// on; with `i` given, onto stack `i` from a source of slot `slot` on.
pub open spec fn placed_in(p: PositionModel, ms: Seq<BitboardMove>, s: nat, lo: nat) -> bool {
    forall|k: int|
        0 <= k < ms.len() ==> (#[trigger] stacks_of(p, ms[k]) matches PlayerMove::StoneMove { from, to }
            && lo <= to < 8 && column_mask_of(to as u64) & stage_spots(p, s) != 0)
}

proof fn lemma_phase_one_stacks(p: PositionModel, i: nat)
    requires
        board_ok(p.played, p.our),
        i < 8,
        to_part(p.played, i as u64) != 0,
    ensures
        player_move_on(p.played, to_part(p.played, i as u64)) == (PlayerMove::StoneMove {
            from: None,
            to: i as usize,
        }),
{
    let top = top_spots_of(p.played);
    let free = free_spots_of(p.played);
    lemma_top_free_disjoint(p.played, p.our);
    lemma_parts(column_mask_of(i as u64), 0, top, free);
    lemma_first_column_of_column(i as u64, free, 0);
}

proof fn lemma_phase_two_stacks(p: PositionModel, i: nat, f: nat)
    requires
        board_ok(p.played, p.our),
        i < 8,
        f < 8,
        to_part(p.played, i as u64) != 0,
        from_part(p.played, f as u64) & p.our != 0,
    ensures
        player_move_on(p.played, to_part(p.played, i as u64) | from_part(p.played, f as u64)) == (
        PlayerMove::StoneMove { from: Some(f as usize), to: i as usize }),
{
    let top = top_spots_of(p.played);
    let free = free_spots_of(p.played);
    lemma_top_free_disjoint(p.played, p.our);
    lemma_parts(column_mask_of(i as u64), column_mask_of(f as u64), top, free);
    lemma_nonzero_part(from_part(p.played, f as u64), p.our);
    lemma_first_column_of_column(f as u64, top, 0);
    lemma_first_column_of_column(i as u64, free, 0);
}

/// The moves onto one stack from sources of slot `slot` on: distinct, each
/// from one of those sources.
proof fn lemma_sources_distinct(p: PositionModel, hint: Option<BitboardMove>, s: nat, i: nat, slot: nat)
    requires
        board_ok(p.played, p.our),
        i < 8,
        p.is_second_phase(),
        column_mask_of(i as u64) & stage_spots(p, s) != 0,
    ensures
        source_moves(p, hint, i, slot).no_duplicates(),
        forall|k: int|
            0 <= k < source_moves(p, hint, i, slot).len() ==> exists|sl: nat|
                slot <= sl < 3 && #[trigger] stacks_of(p, source_moves(p, hint, i, slot)[k]) == (
                PlayerMove::StoneMove { from: Some(source_of(i, sl) as usize), to: i as usize }),
    decreases 3 - slot,
{
    if slot < 3 {
        lemma_sources_distinct(p, hint, s, i, slot + 1);
        let f = source_of(i, slot);
        let c = to_part(p.played, i as u64) | from_part(p.played, f as u64);
        let rest = source_moves(p, hint, i, slot + 1);
        if column_mask_of(f as u64) & from_spots_of(p.played, p.our) != 0 && kept(p, hint, c) {
            lemma_stage_within_free(p, s);
            lemma_candidate(column_mask_of(i as u64), stage_spots(p, s), free_spots_of(p.played));
            lemma_from_ours(p.played, p.our, f as u64);
            lemma_phase_two_stacks(p, i, f);
            let all = seq![BitboardMove::StoneMove(c)] + rest;
            assert forall|k: int| 0 <= k < all.len() implies exists|sl: nat|
                slot <= sl < 3 && #[trigger] stacks_of(p, all[k]) == (PlayerMove::StoneMove {
                from: Some(source_of(i, sl) as usize),
                to: i as usize,
            }) by {
                if k == 0 {
                    assert(stacks_of(p, all[k]) == (PlayerMove::StoneMove { from: Some(source_of(i, slot) as usize), to: i as usize }));
                } else {
                    assert(all[k] == rest[k - 1]);
                }
            }
            assert forall|a: int, b: int| 0 <= a < b < all.len() implies all[a] != all[b] by {
                if a == 0 {
                    assert(all[b] == rest[b - 1]);
                    let sl = choose|sl: nat| slot + 1 <= sl < 3 && #[trigger] stacks_of(p, rest[b - 1]) == (PlayerMove::StoneMove {
                        from: Some(source_of(i, sl) as usize),
                        to: i as usize,
                    });
                    assert(source_of(i, sl) != source_of(i, slot));
                } else {
                    assert(all[a] == rest[a - 1]);
                    assert(all[b] == rest[b - 1]);
                }
            }
        }
    }
}

proof fn lemma_concat_distinct(a: Seq<BitboardMove>, b: Seq<BitboardMove>)
    requires
        a.no_duplicates(),
        b.no_duplicates(),
        forall|j: int, k: int| 0 <= j < a.len() && 0 <= k < b.len() ==> a[j] != b[k],
    ensures
        (a + b).no_duplicates(),
{
    let c = a + b;
    assert forall|x: int, y: int| 0 <= x < c.len() && 0 <= y < c.len() && x != y implies c[x] != c[y] by {
        if x < a.len() && y < a.len() {
            assert(c[x] == a[x] && c[y] == a[y]);
        } else if x >= a.len() && y >= a.len() {
            assert(c[x] == b[x - a.len()] && c[y] == b[y - a.len()]);
        } else if x < a.len() {
            assert(c[x] == a[x] && c[y] == b[y - a.len()]);
        } else {
            assert(c[y] == a[y] && c[x] == b[x - a.len()]);
        }
    }
}

proof fn lemma_column_distinct(p: PositionModel, hint: Option<BitboardMove>, s: nat, i: nat)
    requires
        board_ok(p.played, p.our),
        i < 8,
    ensures
        column_moves(p, hint, s, i).no_duplicates(),
        placed_in(p, column_moves(p, hint, s, i), s, i),
        forall|k: int|
            0 <= k < column_moves(p, hint, s, i).len() ==> (#[trigger] stacks_of(
                p,
                column_moves(p, hint, s, i)[k],
            ) matches PlayerMove::StoneMove { from, to } && to == i),
{
    let col = column_moves(p, hint, s, i);
    if column_mask_of(i as u64) & stage_spots(p, s) != 0 {
        lemma_stage_within_free(p, s);
        lemma_candidate(column_mask_of(i as u64), stage_spots(p, s), free_spots_of(p.played));
        if !p.is_second_phase() {
            lemma_phase_one_stacks(p, i);
        } else {
            lemma_sources_distinct(p, hint, s, i, 0);
            assert forall|k: int| 0 <= k < col.len() implies (#[trigger] stacks_of(p, col[k])
                matches PlayerMove::StoneMove { from, to } && to == i) by {
                let sl = choose|sl: nat| 0 <= sl < 3 && #[trigger] stacks_of(p, col[k]) == (PlayerMove::StoneMove {
                    from: Some(source_of(i, sl) as usize),
                    to: i as usize,
                });
            }
        }
    }
}

proof fn lemma_stage_distinct(p: PositionModel, hint: Option<BitboardMove>, s: nat, i: nat)
    requires
        board_ok(p.played, p.our),
    ensures
        stage_moves(p, hint, s, i).no_duplicates(),
        placed_in(p, stage_moves(p, hint, s, i), s, i),
    decreases 8 - i,
{
    if i < 8 {
        lemma_stage_distinct(p, hint, s, i + 1);
        lemma_column_distinct(p, hint, s, i);
        let col = column_moves(p, hint, s, i);
        let rest = stage_moves(p, hint, s, i + 1);
        assert forall|j: int, k: int| 0 <= j < col.len() && 0 <= k < rest.len() implies col[j]
            != rest[k] by {
            assert(stacks_of(p, col[j]) matches PlayerMove::StoneMove { from, to } && to == i);
            assert(stacks_of(p, rest[k]) matches PlayerMove::StoneMove { from, to } && to >= i + 1);
        }
        lemma_concat_distinct(col, rest);
        let all = col + rest;
        assert forall|k: int| 0 <= k < all.len() implies (#[trigger] stacks_of(p, all[k])
            matches PlayerMove::StoneMove { from, to } && i <= to < 8 && column_mask_of(to as u64)
            & stage_spots(p, s) != 0) by {
            if k < col.len() {
                assert(all[k] == col[k]);
            } else {
                assert(all[k] == rest[k - col.len()]);
            }
        }
    }
}

proof fn lemma_stages_apart(p: PositionModel, hint: Option<BitboardMove>, a: nat, b: nat)
    requires
        board_ok(p.played, p.our),
        a < b < 3,
    ensures
        forall|j: int, k: int|
            0 <= j < stage_moves(p, hint, a, 0).len() && 0 <= k < stage_moves(p, hint, b, 0).len()
                ==> stage_moves(p, hint, a, 0)[j] != stage_moves(p, hint, b, 0)[k],
{
    lemma_stage_distinct(p, hint, a, 0);
    lemma_stage_distinct(p, hint, b, 0);
    let x = stage_moves(p, hint, a, 0);
    let y = stage_moves(p, hint, b, 0);
    assert forall|j: int, k: int| 0 <= j < x.len() && 0 <= k < y.len() implies x[j] != y[k] by {
        assert(stacks_of(p, x[j]) matches PlayerMove::StoneMove { from, to } && to < 8
            && column_mask_of(to as u64) & stage_spots(p, a) != 0);
        if x[j] == y[k] {
            let to = stacks_of(p, x[j])->to;
            lemma_stage_exclusive(p.played, p.our, to as u64);
            assert(column_mask_of(to as u64) & stage_spots(p, b) != 0);
        }
    }
}

/// On a sound board no move is handed out twice.
pub proof fn lemma_sequence_distinct(p: PositionModel, pv: Option<BitboardMove>)
    requires
        board_ok(p.played, p.our),
    ensures
        move_sequence(p, pv).no_duplicates(),
{
    let h = valid_hint(p, pv);
    let head: Seq<BitboardMove> = match h {
        Some(x) => seq![x],
        None => Seq::empty(),
    };
    let sb: Seq<BitboardMove> = if p.can_second_best() && h != Some(BitboardMove::SecondBest) {
        seq![BitboardMove::SecondBest]
    } else {
        Seq::empty()
    };
    let st0 = stage_moves(p, h, 0, 0);
    let st1 = stage_moves(p, h, 1, 0);
    let st2 = stage_moves(p, h, 2, 0);
    lemma_stage_distinct(p, h, 0, 0);
    lemma_stage_distinct(p, h, 1, 0);
    lemma_stage_distinct(p, h, 2, 0);
    lemma_stage_moves_plain(p, h, 0, 0);
    lemma_stage_moves_plain(p, h, 1, 0);
    lemma_stage_moves_plain(p, h, 2, 0);
    lemma_stages_apart(p, h, 0, 1);
    lemma_stages_apart(p, h, 0, 2);
    lemma_stages_apart(p, h, 1, 2);
    lemma_concat_distinct(head, sb);
    lemma_concat_distinct(head + sb, st0);
    assert forall|j: int, k: int| 0 <= j < (head + sb + st0).len() && 0 <= k < st1.len() implies (head
        + sb + st0)[j] != st1[k] by {
        if j >= (head + sb).len() {
            assert((head + sb + st0)[j] == st0[j - (head + sb).len()]);
        }
    }
    lemma_concat_distinct(head + sb + st0, st1);
    assert forall|j: int, k: int| 0 <= j < (head + sb + st0 + st1).len() && 0 <= k < st2.len()
        implies (head + sb + st0 + st1)[j] != st2[k] by {
        let n1 = (head + sb).len();
        let n2 = (head + sb + st0).len();
        if j >= n2 {
            assert((head + sb + st0 + st1)[j] == st1[j - n2]);
        } else if j >= n1 {
            assert((head + sb + st0 + st1)[j] == st0[j - n1]);
        }
    }
    lemma_concat_distinct(head + sb + st0 + st1, st2);
}

/// The legal moves of a position, best candidates first: the hint, then
/// "Second Best!", then moves completing three in a stack, then moves onto
/// stacks not topped by our own stone, then the rest. The moves are listed
/// when the generator is made and handed out one by one.
pub struct MoveGen {
    moves: Vec<BitboardMove>,
    next: usize,
    model: Ghost<PositionModel>,
    pv: Ghost<Option<BitboardMove>>,
}

impl MoveGen {
    pub closed spec fn wf(&self) -> bool {
        &&& self.moves@ == move_sequence(self.model@, self.pv@)
        &&& self.next <= self.moves@.len()
    }

    /// The position whose moves these are.
    pub closed spec fn model(&self) -> PositionModel {
        self.model@
    }

    /// All the moves, in order.
    pub closed spec fn sequence(&self) -> Seq<BitboardMove> {
        self.moves@
    }

    /// How many moves have been handed out.
    pub closed spec fn handed_out(&self) -> nat {
        self.next as nat
    }

    /// "Second Best!" is among the moves.
    pub open spec fn allows_second_best(&self) -> bool {
        self.model().can_second_best()
    }

    /// The moves not handed out yet.
    pub open spec fn remaining(&self) -> nat {
        (self.sequence().len() - self.handed_out()) as nat
    }

    /// Append the moves of stage `s` onto stacks `0..8`.
    fn push_stage(
        moves: &mut Vec<BitboardMove>,
        pos: &Position,
        hint: Option<BitboardMove>,
        spots: Bitboard,
        Ghost(s): Ghost<nat>,
    )
        requires
            pos@.wf(),
            spots == stage_spots(pos@, s),
        ensures
            final(moves)@ == old(moves)@ + stage_moves(pos@, hint, s, 0),
    {
        let p = Ghost(pos@);
        let second_phase = pos.is_second_phase();
        let free = pos.free_spots();
        let top = pos.top_spots();
        let from_spots = pos.from_spots(true);
        let banned = pos.banned_move();
        let mut i: usize = 0;
        assert(moves@ + stage_moves(p@, hint, s, 0) =~= old(moves)@ + stage_moves(p@, hint, s, 0));
        while i < Position::NUM_STACKS
            invariant
                i <= 8,
                p@ == pos@,
                pos@.wf(),
                spots == stage_spots(p@, s),
                second_phase == p@.is_second_phase(),
                free == free_spots_of(p@.played),
                top == top_spots_of(p@.played),
                from_spots == from_spots_of(p@.played, p@.our),
                banned == p@.banned_move(),
                moves@ + stage_moves(p@, hint, s, i as nat) == old(moves)@ + stage_moves(p@, hint, s, 0),
            decreases 8 - i,
        {
            let ghost before = moves@;
            let ghost ii = i as nat;
            if Position::column_mask(i) & spots != 0 {
                if !second_phase {
                    let c = Position::column_mask(i) & free;
                    if banned != Some(c) && hint != Some(BitboardMove::StoneMove(c)) {
                        moves.push(BitboardMove::StoneMove(c));
                    }
                } else {
                    let mut slot: usize = 0;
                    assert(moves@ + source_moves(p@, hint, ii, 0) =~= before + source_moves(p@, hint, ii, 0));
                    while slot < 3
                        invariant
                            slot <= 3,
                            i < 8,
                            ii == i,
                            p@ == pos@,
                            free == free_spots_of(p@.played),
                            top == top_spots_of(p@.played),
                            from_spots == from_spots_of(p@.played, p@.our),
                            banned == p@.banned_move(),
                            moves@ + source_moves(p@, hint, ii, slot as nat) == before + source_moves(
                                p@,
                                hint,
                                ii,
                                0,
                            ),
                        decreases 3 - slot,
                    {
                        let ghost before_slot = moves@;
                        let f = if slot == 0 {
                            (i + Position::LEFT) % Position::NUM_STACKS
                        } else if slot == 1 {
                            (i + Position::RIGHT) % Position::NUM_STACKS
                        } else {
                            (i + Position::OPPOSITE) % Position::NUM_STACKS
                        };
                        assert(f == source_of(ii, slot as nat));
                        if Position::column_mask(f) & from_spots != 0 {
                            let c = (Position::column_mask(i) & free) | (Position::column_mask(f) & top);
                            if banned != Some(c) && hint != Some(BitboardMove::StoneMove(c)) {
                                moves.push(BitboardMove::StoneMove(c));
                            }
                        }
                        assert(moves@ + source_moves(p@, hint, ii, (slot + 1) as nat) =~= before_slot
                            + source_moves(p@, hint, ii, slot as nat));
                        slot = slot + 1;
                    }
                    assert(source_moves(p@, hint, ii, 3) =~= Seq::<BitboardMove>::empty());
                    assert(moves@ =~= before + source_moves(p@, hint, ii, 0));
                }
            }
            assert(moves@ =~= before + column_moves(p@, hint, s, ii));
            assert(moves@ + stage_moves(p@, hint, s, (i + 1) as nat) =~= before + stage_moves(
                p@,
                hint,
                s,
                ii,
            ));
            i = i + 1;
        }
        assert(stage_moves(p@, hint, s, 8) =~= Seq::<BitboardMove>::empty());
        assert(moves@ =~= old(moves)@ + stage_moves(p@, hint, s, 0));
    }

    /// The moves of `pos`, with `pv_move` first if it is a move of `pos`.
    pub fn new(pos: &Position, pv_move: Option<BitboardMove>) -> (r: Self)
        requires
            pos@.wf(),
        ensures
            r.wf(),
            r.model() == pos@,
            r.sequence() == move_sequence(pos@, pv_move),
            r.handed_out() == 0,
            all_ok(pos@, r.sequence()),
            forall|m: BitboardMove|
                (m == BitboardMove::SecondBest && pos@.can_second_best() || (m matches BitboardMove::StoneMove(
                    c,
                ) && legal_stone_move(pos@, c))) ==> #[trigger] r.sequence().contains(m),
            board_ok(pos@.played, pos@.our) ==> r.sequence().no_duplicates(),
            valid_hint(pos@, pv_move) matches Some(h) ==> r.sequence()[0] == h,
    {
        let can_second_best = pos.can_second_best();
        // A hint is tried first only if it is a move of this position.
        let hint = match pv_move {
            Some(BitboardMove::SecondBest) => if can_second_best {
                pv_move
            } else {
                None
            },
            Some(BitboardMove::StoneMove(m)) => match BitboardMove::StoneMove(m).to_player_move(pos) {
                PlayerMove::StoneMove { from, to } => match pos.check_stone_move(from, to) {
                    Ok(checked) => if checked == m {
                        pv_move
                    } else {
                        None
                    },
                    Err(_) => None,
                },
                PlayerMove::SecondBest => None,
            },
            None => None,
        };
        assert(hint == valid_hint(pos@, pv_move));
        let mut moves: Vec<BitboardMove> = Vec::new();
        match hint {
            Some(h) => moves.push(h),
            None => {},
        }
        if can_second_best && hint != Some(BitboardMove::SecondBest) {
            moves.push(BitboardMove::SecondBest);
        }
        let ghost head: Seq<BitboardMove> = match hint {
            Some(m) => seq![m],
            None => Seq::empty(),
        };
        let ghost sb: Seq<BitboardMove> = if pos@.can_second_best() && hint != Some(
            BitboardMove::SecondBest,
        ) {
            seq![BitboardMove::SecondBest]
        } else {
            Seq::empty()
        };
        assert(moves@ =~= head + sb);
        let alignment_spots = pos.vertical_alignment_spots();
        let free_to_spots = pos.free_spots() & !alignment_spots;
        let bad_spots = pos.from_spots(true) << 1u64;
        Self::push_stage(&mut moves, pos, hint, alignment_spots, Ghost(0));
        Self::push_stage(&mut moves, pos, hint, free_to_spots & !bad_spots, Ghost(1));
        Self::push_stage(&mut moves, pos, hint, free_to_spots & bad_spots, Ghost(2));
        assert(moves@ =~= move_sequence(pos@, pv_move));
        proof {
            lemma_sequence_sound(pos@, pv_move);
            lemma_sequence_order(pos@, pv_move);
            if board_ok(pos@.played, pos@.our) {
                lemma_sequence_distinct(pos@, pv_move);
            }
            assert forall|m: BitboardMove|
                (m == BitboardMove::SecondBest && pos@.can_second_best() || (m matches BitboardMove::StoneMove(
                    c,
                ) && legal_stone_move(pos@, c))) implies #[trigger] moves@.contains(m) by {
                lemma_sequence_complete(pos@, pv_move, m);
            }
        }
        MoveGen { moves, next: 0, model: Ghost(pos@), pv: Ghost(pv_move) }
    }

    /// The next move, or `None` once all have been handed out.
    pub fn next_move(&mut self) -> (r: Option<BitboardMove>)
        requires
            old(self).wf(),
        ensures
            final(self).wf(),
            final(self).model() == old(self).model(),
            final(self).sequence() == old(self).sequence(),
            old(self).handed_out() < old(self).sequence().len() ==> r == Some(
                old(self).sequence()[old(self).handed_out() as int],
            ) && final(self).handed_out() == old(self).handed_out() + 1,
            old(self).handed_out() >= old(self).sequence().len() ==> r is None
                && final(self).handed_out() == old(self).handed_out(),
            r == Some(BitboardMove::SecondBest) ==> old(self).allows_second_best(),
            r matches Some(BitboardMove::StoneMove(m)) ==> old(self).model().banned_move() != Some(m),
            r matches Some(BitboardMove::StoneMove(m)) ==> (!stone_moves_barred(old(self).model())
                ==> legal_stone_move(old(self).model(), m)),
    {
        proof {
            lemma_sequence_sound(self.model@, self.pv@);
        }
        if self.next < self.moves.len() {
            let m = self.moves[self.next];
            proof {
                assert(move_ok(self.model@, self.moves@[self.next as int]));
            }
            self.next = self.next + 1;
            Some(m)
        } else {
            None
        }
    }

    /// All the moves not handed out yet, in order.
    pub fn collect_moves(&mut self) -> (r: Vec<BitboardMove>)
        requires
            old(self).wf(),
        ensures
            final(self).wf(),
            final(self).model() == old(self).model(),
            r@ == old(self).sequence().skip(old(self).handed_out() as int),
            all_ok(old(self).model(), r@),
    {
        proof {
            lemma_sequence_sound(self.model@, self.pv@);
        }
        let mut r: Vec<BitboardMove> = Vec::new();
        let start = self.next;
        while self.next < self.moves.len()
            invariant
                self.wf(),
                self.model() == old(self).model(),
                self.sequence() == old(self).sequence(),
                start == old(self).handed_out(),
                start <= self.next,
                r@ =~= self.moves@.subrange(start as int, self.next as int),
                all_ok(self.model@, self.moves@),
            decreases self.moves.len() - self.next,
        {
            r.push(self.moves[self.next]);
            self.next = self.next + 1;
        }
        assert(r@ =~= old(self).sequence().skip(start as int));
        assert forall|k: int| 0 <= k < r@.len() implies #[trigger] move_ok(old(self).model(), r@[k]) by {
            assert(r@[k] == self.moves@[start + k]);
        }
        r
    }
}

} // verus!
