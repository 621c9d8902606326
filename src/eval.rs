//! Scores: the static evaluation and the encoding of mate distances.
use vstd::prelude::*;
use crate::bitboard::controlled_stacks_of;
use vstd::arithmetic::power2::{pow2, lemma_pow2_unfold, lemma2_to64};
use crate::notation::decimal_of;
use crate::notation::push_decimal;
use crate::position::{Color, Position, PositionModel};

verus! {

/// The score of a won game, before the distance to the win is taken off.
pub const WIN: isize = 1000;

/// The score of a lost game, before the distance to the loss is added.
pub const LOSS: isize = -1000;

/// Scores above this one are wins.
pub const IS_WIN: isize = 490;

/// Scores below this one are losses.
pub const IS_LOSS: isize = -490;

/// An evaluation, read.
#[derive(Debug, Clone, Copy, PartialEq, Eq, Structural)]
pub enum ExplainableEval {
    /// A win, with how many moves needed to get there.
    Win(isize),
    /// A loss, with how many moves needed to get there.
    Loss(isize),
    /// The position is not solved: the best score at the searched depth.
    Undetermined(isize),
}

/// The number of set bits.
pub open spec fn bit_count(x: nat) -> nat
    decreases x,
{
    if x == 0 {
        0
    } else {
        (x % 2) + bit_count(x / 2)
    }
}

/// Integer division by two, rounding towards zero.
pub open spec fn half_toward_zero(x: int) -> int {
    if x >= 0 {
        x / 2
    } else {
        -((-x) / 2)
    }
}

/// The static evaluation: stacks we control minus stacks the opponent
/// controls (each stack counted once), minus 10 if the opponent has an
/// alignment.
pub open spec fn static_eval_of(p: PositionModel) -> int {
    let ours = bit_count(controlled_stacks_of(p.played, p.stones(true)) as nat);
    let theirs = bit_count(controlled_stacks_of(p.played, p.stones(false)) as nat);
    half_toward_zero(ours - theirs) - if p.has_alignment(false) {
        10int
    } else {
        0int
    }
}

/// How an evaluation reads at the given ply.
pub open spec fn decoded(eval: int, ply: int) -> ExplainableEval {
    if eval < IS_LOSS {
        ExplainableEval::Loss((eval - LOSS - ply) as isize)
    } else if eval > IS_WIN {
        ExplainableEval::Win((WIN - eval - ply) as isize)
    } else {
        ExplainableEval::Undetermined(eval as isize)
    }
}

/// A number below `2^k` has at most `k` set bits.
proof fn lemma_bit_count_bound(x: nat, k: nat)
    requires
        x < pow2(k),
    ensures
        bit_count(x) <= k,
    decreases k,
{
    if x > 0 {
        if k == 0 {
            assert(pow2(0) == 1) by {
                lemma2_to64();
            }
        } else {
            lemma_pow2_unfold(k);
            lemma_bit_count_bound(x / 2, (k - 1) as nat);
        }
    }
}

/// The number of set bits of a bitboard.
pub fn count_ones(bb: u64) -> (r: u32)
    ensures
        r == bit_count(bb as nat),
        r <= 64,
{
    proof {
        lemma2_to64();
        lemma_bit_count_bound(bb as nat, 64);
    }
    let mut v = bb;
    let mut c: u32 = 0;
    while v != 0
        invariant
            bit_count(bb as nat) == c + bit_count(v as nat),
            bit_count(bb as nat) <= 64,
        decreases v,
    {
        assert(v & 1 == v % 2) by (bit_vector);
        assert(v >> 1u64 == v / 2) by (bit_vector);
        c = c + (v & 1) as u32;
        v = v >> 1u64;
    }
    c
}

/// The static evaluation of the position, from the side to move's view.
pub fn static_eval(pos: &Position) -> (r: isize)
    ensures
        r == static_eval_of(pos@),
        -42 <= r <= 32,
{
    let ours = count_ones(pos.controlled_stacks(true)) as isize;
    let theirs = count_ones(pos.controlled_stacks(false)) as isize;
    let diff = ours - theirs;
    let mut score = if diff >= 0 {
        diff / 2
    } else {
        -((-diff) / 2)
    };
    if pos.has_alignment(false) {
        // We cannot have one ourselves: that would have won the previous ply.
        score = score - 10;
    }
    score
}

/// The score of a loss at the given ply: later losses score higher.
pub fn loss_score(ply: isize) -> (r: isize)
    requires
        0 <= ply <= Position::MAX_MOVES,
    ensures
        r == LOSS + ply,
{
    LOSS + ply
}

/// The score of a win at the given ply: sooner wins score higher.
pub fn win_score(ply: isize) -> (r: isize)
    requires
        0 <= ply <= Position::MAX_MOVES,
    ensures
        r == WIN - ply,
{
    WIN - ply
}

/// Read an evaluation at the given ply: a win or a loss in so many moves,
/// or an undecided score.
pub fn decode_eval(eval: isize, ply: isize) -> (r: ExplainableEval)
    requires
        0 <= ply <= Position::MAX_MOVES,
    ensures
        r == decoded(eval as int, ply as int),
{
    if eval < IS_LOSS {
        ExplainableEval::Loss(eval - LOSS - ply)
    } else if eval > IS_WIN {
        ExplainableEval::Win(WIN - eval - ply)
    } else {
        ExplainableEval::Undetermined(eval)
    }
}

/// A number in decimal, with a `-` in front if it is negative.
pub open spec fn signed_decimal(n: int) -> Seq<char> {
    if n < 0 {
        seq!['-'] + decimal_of((-n) as nat)
    } else {
        decimal_of(n as nat)
    }
}

/// Append a signed number in decimal.
fn push_signed(s: &mut String, n: isize)
    ensures
        final(s)@ == old(s)@ + signed_decimal(n as int),
{
    proof {
        reveal_strlit("-");
    }
    if n < 0 {
        s.append("-");
        let m = (0i128 - (n as i128)) as usize;
        push_decimal(s, m);
        assert(final(s)@ =~= old(s)@ + signed_decimal(n as int));
    } else {
        push_decimal(s, n as usize);
    }
}

/// An evaluation explained in words.
pub open spec fn explanation(side: Seq<char>, other: Seq<char>, e: ExplainableEval) -> Seq<char> {
    match e {
        ExplainableEval::Win(moves) => "Position is winning:\n"@ + side + " can win in "@
            + signed_decimal(moves as int) + " move(s)"@,
        ExplainableEval::Loss(moves) => "Position is lost:\n"@ + other + " can win in "@
            + signed_decimal(moves as int) + " move(s)"@,
        ExplainableEval::Undetermined(score) => "Result of the position is undetermined.\nBest score for ("@
            + side + ") is "@ + signed_decimal(score as int) + " (Higher is better)"@,
    }
}

/// Explain an evaluation for the given side to move in words.
pub fn explain_eval(side: Color, eval: isize, ply: isize) -> (r: String)
    requires
        0 <= ply <= Position::MAX_MOVES,
    ensures
        r@ == explanation(side.symbol_spec(), side.other_spec().symbol_spec(), decoded(eval as int, ply as int)),
{
    let mut s = String::new();
    match decode_eval(eval, ply) {
        ExplainableEval::Win(moves) => {
            s.append("Position is winning:\n");
            s.append(side.symbol());
            s.append(" can win in ");
            push_signed(&mut s, moves);
            s.append(" move(s)");
        },
        ExplainableEval::Loss(moves) => {
            s.append("Position is lost:\n");
            s.append(side.other().symbol());
            s.append(" can win in ");
            push_signed(&mut s, moves);
            s.append(" move(s)");
        },
        ExplainableEval::Undetermined(score) => {
            s.append("Result of the position is undetermined.\nBest score for (");
            s.append(side.symbol());
            s.append(") is ");
            push_signed(&mut s, score);
            s.append(" (Higher is better)");
        },
    }
    assert(s@ =~= explanation(side.symbol_spec(), side.other_spec().symbol_spec(), decoded(eval as int, ply as int)));
    s
}

} // verus!
