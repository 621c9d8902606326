//! Iterative-deepening alpha-beta negamax over the game tree, where
//! "Second Best!" is an edge that keeps the depth.
use vstd::prelude::*;
use std::sync::atomic::{AtomicBool, Ordering};
use std::sync::Arc;
use crate::eval::{decode_eval, decoded, loss_score, static_eval, static_eval_of, ExplainableEval, LOSS, WIN};
use crate::position::{
    after_move, after_second_best, after_stone_move, after_undo_second_best, initial_model, lemma_make_unmake_round_trip,
    lemma_second_best_round_trip, legal_stone_move, move_allowed, serialized, stone_moves_barred,
    try_move_outcome, BitboardMove, MoveFailed, PlayerMove, Position, PositionModel,
};
use crate::replay::{lemma_rules_kept, played_by_the_rules};
use crate::movegen::{move_sequence, MoveGen};
use crate::transposition_table::{
    key_of, read_score, table_lookup, table_store, tt_decode, tt_from, tt_is_second_best, tt_to, Entry,
    EntryType, TableModel, TranspositionTable, table_size_ok, empty_table,
    lemma_table_size_unique,
};
use crate::bench::next_rand;

verus! {

/// Each position of `states` is reached from the one before it by the
/// move of `made` at the same index, a move that was allowed there.
spec fn walk_ok(states: Seq<PositionModel>, made: Seq<BitboardMove>) -> bool {
    forall|j: int|
        0 <= j < made.len() ==> #[trigger] states[j].wf() && move_allowed(states[j], made[j])
            && states[j + 1] == after_move(states[j], made[j])
}

/// How a score found with the window `alpha..beta` is stored.
pub open spec fn bound_kind(score: int, alpha: int, beta: int) -> EntryType {
    if score <= alpha {
        EntryType::UpperBound
    } else if score >= beta {
        EntryType::LowerBound
    } else {
        EntryType::Exact
    }
}

/// The depth left after a move: "Second Best!" costs none.
pub open spec fn child_depth(m: BitboardMove, depth: nat) -> nat {
    match m {
        BitboardMove::SecondBest => depth,
        BitboardMove::StoneMove(_) => (depth - 1) as nat,
    }
}

pub open spec fn retract_rank(p: PositionModel) -> nat {
    if p.can_second_best() {
        1
    } else {
        0
    }
}

/// A move lowers the search measure: a stone move uses up depth, and
/// "Second Best!" leads where it cannot be called again. True of every
/// move made from a well-formed position where it is allowed.
pub open spec fn lowers_measure(p: PositionModel, m: BitboardMove, depth: nat) -> bool {
    2 * child_depth(m, depth) + retract_rank(after_move(p, m)) < 2 * depth + retract_rank(p)
}

/// The alpha-beta value of a position for the side to move and the table
/// after it was found: a loss at this ply, the static evaluation at depth
/// 0, a stored exact score of at least this depth, or else the best of the
/// moves (in generator order, the stored best move first), stored in the
/// table with its kind.
pub open spec fn negamax_value(p: PositionModel, t: TableModel, depth: nat, alpha: int, beta: int) -> (
    int,
    TableModel,
)
    decreases 2 * depth + retract_rank(p), 1nat, 0nat,
{
    if p.is_lost() {
        (LOSS + p.num_moves, t)
    } else if depth == 0 {
        (static_eval_of(p), t)
    } else {
        let entry = table_lookup(t, p);
        let hint = match entry {
            Some(e) => Some(tt_decode(p, e.move_bits())),
            None => None,
        };
        if entry matches Some(e) && e.depth() >= depth && e.kind() == EntryType::Exact {
            (read_score(entry->0.score_bits() as int, p.num_moves as int), t)
        } else {
            let r = moves_value(
                p,
                t,
                depth,
                alpha,
                beta,
                move_sequence(p, hint),
                0,
                LOSS + p.num_moves + 1,
                hint,
            );
            match r.1 {
                Some(b) => (r.0, table_store(r.2, p, r.0, b, bound_kind(r.0, alpha, beta), depth)),
                None => (r.0, r.2),
            }
        }
    }
}

/// The best score and move over the moves from index `k` on, with the
/// window narrowing as better moves are found and stopping at a cut-off.
pub open spec fn moves_value(
    p: PositionModel,
    t: TableModel,
    depth: nat,
    alpha: int,
    beta: int,
    moves: Seq<BitboardMove>,
    k: nat,
    best: int,
    best_move: Option<BitboardMove>,
) -> (int, Option<BitboardMove>, TableModel)
    decreases 2 * depth + retract_rank(p), 0nat, moves.len() - k,
{
    if k >= moves.len() || depth == 0 {
        (best, best_move, t)
    } else {
        let m = moves[k as int];
        if !lowers_measure(p, m, depth) {
            moves_value(p, t, depth, alpha, beta, moves, k + 1, best, best_move)
        } else {
            let child = negamax_value(after_move(p, m), t, child_depth(m, depth), -beta, -alpha);
            let eval = -child.0;
            if eval > best {
                if eval > alpha && eval >= beta {
                    (eval, Some(m), child.1)
                } else {
                    moves_value(
                        p,
                        child.1,
                        depth,
                        if eval > alpha {
                            eval
                        } else {
                            alpha
                        },
                        beta,
                        moves,
                        k + 1,
                        eval,
                        Some(m),
                    )
                }
            } else {
                moves_value(p, child.1, depth, alpha, beta, moves, k + 1, best, best_move)
            }
        }
    }
}

/// Iterative deepening over depths `1..=d`: the value of the last depth
/// searched, the table after it, and whether a win or a loss was found
/// (which ends the deepening).
pub open spec fn deepening(p: PositionModel, t: TableModel, d: nat) -> (int, TableModel, bool)
    decreases d,
{
    if d == 0 {
        (0, t, false)
    } else {
        let prev = deepening(p, t, (d - 1) as nat);
        if prev.2 {
            prev
        } else {
            let v = negamax_value(p, prev.1, d, LOSS as int, WIN as int);
            (v.0, v.1, !(decoded(v.0, p.num_moves as int) is Undetermined))
        }
    }
}

/// Once a win or a loss is found, deeper limits change nothing.
proof fn lemma_deepening_settled(p: PositionModel, t: TableModel, d: nat, e: nat)
    requires
        d <= e,
        deepening(p, t, d).2,
    ensures
        deepening(p, t, e) == deepening(p, t, d),
    decreases e - d,
{
    if d < e {
        lemma_deepening_settled(p, t, d, (e - 1) as nat);
    }
}

/// How a stored best move is printed.
pub open spec fn printed_move(e: Entry) -> PlayerMove {
    if tt_is_second_best(e.move_bits()) {
        PlayerMove::SecondBest
    } else {
        PlayerMove::StoneMove { from: tt_from(e.move_bits()), to: tt_to(e.move_bits()) }
    }
}

/// The principal variation: from `p`, the stored best move of each
/// position, followed while the position has a row, its key was not met
/// before (`seen`), the move may be made, and at most `fuel` moves.
pub open spec fn pv_walk(p: PositionModel, t: TableModel, seen: Seq<u64>, fuel: nat) -> Seq<PlayerMove>
    decreases fuel,
{
    if fuel == 0 {
        Seq::empty()
    } else {
        match table_lookup(t, p) {
            None => Seq::empty(),
            Some(e) => {
                let m = tt_decode(p, e.move_bits());
                if seen.contains(key_of(p)) || !move_allowed(p, m) {
                    Seq::empty()
                } else {
                    seq![printed_move(e)] + pv_walk(after_move(p, m), t, seen.push(key_of(p)), (fuel - 1) as nat)
                }
            },
        }
    }
}

/// The deepest search from a position that the move counter allows, up
/// to `depth`.
pub open spec fn search_depth_limit(p: PositionModel, depth: nat) -> nat {
    if depth <= 255 - p.num_moves {
        depth
    } else {
        (255 - p.num_moves) as nat
    }
}

/// A score that reads as a win or a loss in at least `k` moves.
pub open spec fn decided_in_at_least(score: int, ply: int, k: int) -> bool {
    match decoded(score, ply) {
        ExplainableEval::Win(moves) => moves >= k,
        ExplainableEval::Loss(moves) => moves >= k,
        ExplainableEval::Undetermined(_) => false,
    }
}

/// A "Second Best!" that is undone leaves the position as it was, so the
/// branch that goes through it finds the same value, with the same table,
/// as the branch that does neither.
pub proof fn lemma_retraction_branch_same_value(
    p: PositionModel,
    t: TableModel,
    depth: nat,
    alpha: int,
    beta: int,
)
    requires
        p.wf(),
        p.can_second_best(),
    ensures
        negamax_value(after_undo_second_best(after_second_best(p)), t, depth, alpha, beta)
            == negamax_value(p, t, depth, alpha, beta),
{
    lemma_second_best_round_trip(p);
}

/// Two engines made fresh search a position to the same value: the search
/// depends on the position, the depth and the table alone, and fresh
/// tables are equal.
pub proof fn lemma_fresh_searches_agree(p: PositionModel, a: nat, b: nat, depth: nat)
    requires
        table_size_ok(a),
        table_size_ok(b),
    ensures
        deepening(p, empty_table(a), depth) == deepening(p, empty_table(b), depth),
{
    lemma_table_size_unique(a, b);
}

/// No score that the search returns is further from zero than this.
pub const SCORE_BOUND: isize = 32768;

/// The search engine: a position, a transposition table, a node counter and
/// a flag that others may set to stop the search.
pub struct Solver {
    pub position: Position,
    nodes: usize,
    abort: Arc<AtomicBool>,
    /// The stop flag was seen set during the last search.
    stopped: bool,
    /// Whether a driver should keep quiet about the search's progress.
    quiet: bool,
    t_table: TranspositionTable,
}

impl Solver {
    /// The position being searched.
    pub closed spec fn pos(&self) -> PositionModel {
        self.position@
    }

    /// The transposition table is in shape.
    pub closed spec fn table_ok(&self) -> bool {
        self.t_table.wf()
    }

    /// The flag others set to stop the search.
    pub closed spec fn flag(&self) -> Arc<AtomicBool> {
        self.abort
    }

    /// The stop flag was seen set during the last search.
    pub closed spec fn was_stopped(&self) -> bool {
        self.stopped
    }

    /// The contents of the transposition table.
    pub closed spec fn table(&self) -> TableModel {
        self.t_table.model()
    }

    pub closed spec fn node_count(&self) -> usize {
        self.nodes
    }

    pub closed spec fn is_quiet(&self) -> bool {
        self.quiet
    }

    /// A quiet engine on the starting position, stopped by `abort`.
    pub fn new(abort: Arc<AtomicBool>) -> (r: Self)
        ensures
            r.pos() == initial_model(),
            r.pos().wf(),
            r.table_ok(),
            r.node_count() == 0,
            r.is_quiet(),
            !r.was_stopped(),
            r.flag() == abort,
            table_size_ok(r.table().keys.len()),
            r.table() == empty_table(r.table().keys.len()),
    {
        Solver {
            position: Position::new(),
            nodes: 0,
            abort,
            stopped: false,
            quiet: true,
            t_table: TranspositionTable::new(),
        }
    }

    /// The number of nodes visited by the last search.
    pub fn nodes(&self) -> (r: usize)
        ensures
            r == self.node_count(),
    {
        self.nodes
    }

    /// The stop flag is set.
    pub fn abort_search(&self) -> bool {
        self.abort.load(Ordering::Relaxed)
    }

    pub fn be_quiet(&mut self)
        ensures
            final(self).is_quiet(),
            final(self).pos() == old(self).pos(),
            final(self).table_ok() == old(self).table_ok(),
    {
        self.quiet = true
    }

    pub fn be_noisy(&mut self)
        ensures
            !final(self).is_quiet(),
            final(self).pos() == old(self).pos(),
            final(self).table_ok() == old(self).table_ok(),
    {
        self.quiet = false
    }

    /// Whether a driver should keep quiet about the search's progress.
    pub fn quiet(&self) -> (r: bool)
        ensures
            r == self.is_quiet(),
    {
        self.quiet
    }

    /// The score of the position for the side to move, searched `depth`
    /// stone moves deep ("Second Best!" does not count), within the window
    /// `alpha..beta`. Returns 0 once the stop flag is seen.
    fn negamax(&mut self, depth: usize, alpha: isize, beta: isize) -> (r: isize)
        requires
            old(self).pos().wf(),
            old(self).table_ok(),
            old(self).pos().num_moves + depth <= 255,
            -SCORE_BOUND <= alpha <= SCORE_BOUND,
            -SCORE_BOUND <= beta <= SCORE_BOUND,
        ensures
            final(self).pos() == old(self).pos(),
            final(self).table_ok(),
            -SCORE_BOUND <= r <= SCORE_BOUND,
            old(self).was_stopped() ==> final(self).was_stopped(),
            !final(self).was_stopped() ==> (r as int, final(self).table()) == negamax_value(
                old(self).pos(),
                old(self).table(),
                depth as nat,
                alpha as int,
                beta as int,
            ),
            old(self).pos().is_lost() ==> r == LOSS + old(self).pos().num_moves || r == 0,
            (!old(self).pos().is_lost() && depth == 0) ==> r == static_eval_of(
                old(self).pos(),
            ) || r == 0,
            old(self).node_count() % 1024 != 0 ==> {
                &&& old(self).pos().is_lost() ==> r == LOSS + old(self).pos().num_moves
                &&& (!old(self).pos().is_lost() && depth == 0) ==> r == static_eval_of(old(self).pos())
                &&& (old(self).node_count() < usize::MAX && (old(self).pos().is_lost() || depth == 0))
                    ==> final(self).node_count() == old(self).node_count() + 1
            },
        decreases 2 * depth + (if old(self).pos().can_second_best() {
            1int
        } else {
            0int
        }),
    {
        // Look at the flag now and then only.
        if self.nodes % 1024 == 0 && self.abort_search() {
            self.stopped = true;
            return 0;
        }
        if self.nodes < usize::MAX {
            self.nodes = self.nodes + 1;
        }
        let ghost start = self.pos();
        let n = self.position.ply();
        if self.position.game_over() {
            return loss_score(n as isize);
        }
        if depth == 0 {
            return static_eval(&self.position);
        }
        let initial_alpha = alpha;
        let initial_beta = beta;
        let ghost t_start = self.table();
        assert(t_start == old(self).table());
        assert(!start.is_lost() && depth > 0);
        let mut alpha = alpha;
        let mut best_move: Option<BitboardMove> = None;
        match self.t_table.get(&self.position) {
            Some(tt_entry) => {
                best_move = Some(tt_entry.best_move(&self.position));
                if tt_entry.ply() >= depth {
                    let score = tt_entry.score(n as isize);
                    if tt_entry.entry_type() == EntryType::Exact {
                        return score;
                    }
                }
            },
            None => {},
        }
        // We are not lost now, so at worst we lose on the next ply.
        let mut best_score = loss_score(n as isize) + 1;
        let mut moves = MoveGen::new(&self.position, best_move);
        let ghost hint = best_move;
        let ghost seq = move_sequence(start, hint);
        let ghost total = moves_value(start, self.table(), depth as nat, alpha as int, beta as int, seq, 0, best_score as int, hint);
        let mut done = false;
        while !done
            invariant
                self.pos() == start,
                start == old(self).pos(),
                start.wf(),
                self.table_ok(),
                moves.model() == start,
                moves.sequence() == seq,
                seq == move_sequence(start, hint),
                old(self).was_stopped() ==> self.was_stopped(),
                !self.was_stopped() ==> total == (if done {
                    (best_score as int, best_move, self.table())
                } else {
                    moves_value(
                        start,
                        self.table(),
                        depth as nat,
                        alpha as int,
                        beta as int,
                        seq,
                        moves.handed_out(),
                        best_score as int,
                        best_move,
                    )
                }),
                start.num_moves == n,
                n + depth <= 255,
                depth >= 1,
                moves.wf(),
                moves.allows_second_best() == start.can_second_best(),
                -SCORE_BOUND <= best_score <= SCORE_BOUND,
                -SCORE_BOUND <= alpha <= SCORE_BOUND,
                -SCORE_BOUND <= beta <= SCORE_BOUND,
            ensures
                self.pos() == start,
                self.table_ok(),
                -SCORE_BOUND <= best_score <= SCORE_BOUND,
                old(self).was_stopped() ==> self.was_stopped(),
                !self.was_stopped() ==> total == (best_score as int, best_move, self.table()),
            decreases (if done {
                0
            } else {
                moves.remaining() + 1
            }),
        {
            let ghost k = moves.handed_out();
            let ghost table_before = self.table();
            let ghost best_before = best_score;
            let ghost alpha_before = alpha;
            let ghost best_move_before = best_move;
            let bmove = match moves.next_move() {
                Some(m) => m,
                None => {
                    done = true;
                    break;
                },
            };
            proof {
                if bmove == BitboardMove::SecondBest {
                    lemma_second_best_round_trip(start);
                }
                assert(lowers_measure(start, bmove, depth as nat));
            }
            let eval = match bmove {
                BitboardMove::SecondBest => {
                    proof {
                        lemma_second_best_round_trip(start);
                    }
                    assert(start.can_second_best());
                    self.position.second_best();
                    assert(!self.pos().can_second_best());
                    let child = self.negamax(depth, -beta, -alpha);
                    self.position.undo_second_best();
                    -child
                },
                BitboardMove::StoneMove(smove) => {
                    proof {
                        lemma_make_unmake_round_trip(start, bmove);
                    }
                    self.position.make_stone_move(smove);
                    let child = self.negamax(depth - 1, -beta, -alpha);
                    self.position.unmake_move();
                    -child
                },
            };
            let ghost cd = child_depth(bmove, depth as nat);
            assert(!self.was_stopped() ==> (-eval, self.table()) == negamax_value(
                after_move(start, bmove),
                table_before,
                cd,
                -beta,
                -alpha_before,
            ));
            if eval > best_score {
                best_move = Some(bmove);
                best_score = eval;
                if best_score > alpha {
                    alpha = best_score;
                    if alpha >= beta {
                        done = true;
                    }
                }
            }
        }
        let ghost t_loop = self.table();
        proof {
            let entry = table_lookup(t_start, start);
            let h = match entry {
                Some(e) => Some(tt_decode(start, e.move_bits())),
                None => None,
            };
            assert(h == hint);
            assert(!(entry matches Some(e) && e.depth() >= depth && e.kind() == EntryType::Exact));
            if !self.was_stopped() {
                assert(total == (best_score as int, best_move, t_loop));
            }
        }
        match best_move {
            Some(best_move) => {
                let entry_type = if best_score <= initial_alpha {
                    EntryType::UpperBound
                } else if best_score >= initial_beta {
                    EntryType::LowerBound
                } else {
                    EntryType::Exact
                };
                self.t_table.store(&self.position, best_score, best_move, entry_type, depth);
            },
            None => {},
        }
        best_score
    }

    /// The deepest search from this position that the move counter allows,
    /// up to `depth`.
    pub fn depth_limit(&self, depth: usize) -> (r: usize)
        requires
            self.pos().wf(),
        ensures
            r == (if depth <= 255 - self.pos().num_moves {
                depth
            } else {
                (255 - self.pos().num_moves) as usize
            }),
            self.pos().num_moves + r <= 255,
    {
        let room = Position::MAX_MOVES - self.position.num_moves();
        if depth <= room {
            depth
        } else {
            room
        }
    }

    /// Whether iterative deepening goes on after an iteration at `depth`
    /// scored `score`: not past `max_depth`, and not once a win or a loss
    /// has been found.
    pub fn continue_after(&self, depth: usize, max_depth: usize, score: isize) -> (r: bool)
        requires
            self.pos().wf(),
        ensures
            r == (depth < max_depth && decoded(score as int, self.pos().num_moves as int) is Undetermined),
    {
        if depth >= max_depth {
            return false;
        }
        match decode_eval(score, self.position.ply() as isize) {
            ExplainableEval::Undetermined(_) => true,
            _ => false,
        }
    }

    /// Start a search: count nodes from zero, forget an earlier stop.
    pub fn reset_nodes(&mut self)
        ensures
            final(self).node_count() == 0,
            final(self).pos() == old(self).pos(),
            final(self).table_ok() == old(self).table_ok(),
            final(self).is_quiet() == old(self).is_quiet(),
            final(self).table() == old(self).table(),
            !final(self).was_stopped(),
    {
        self.nodes = 0;
        self.stopped = false;
    }

    /// The stop flag was seen set during the last search; its result is
    /// then that of an earlier depth.
    pub fn stopped(&self) -> (r: bool)
        ensures
            r == self.was_stopped(),
    {
        self.stopped
    }

    /// One iteration of iterative deepening: the score of the position at
    /// the given depth, over the full window `LOSS..WIN`.
    pub fn search_iteration(&mut self, depth: usize) -> (r: isize)
        requires
            old(self).pos().wf(),
            old(self).table_ok(),
            old(self).pos().num_moves + depth <= 255,
        ensures
            final(self).pos() == old(self).pos(),
            final(self).table_ok(),
            -SCORE_BOUND <= r <= SCORE_BOUND,
            old(self).pos().is_lost() ==> r == LOSS + old(self).pos().num_moves || r == 0,
            old(self).was_stopped() ==> final(self).was_stopped(),
            !final(self).was_stopped() ==> (r as int, final(self).table()) == negamax_value(
                old(self).pos(),
                old(self).table(),
                depth as nat,
                LOSS as int,
                WIN as int,
            ),
    {
        self.negamax(depth, LOSS, WIN)
    }

    /// Search depths 1, 2, ... up to `depth` (as far as the move counter
    /// allows), stopping at the first win or loss found. Returns the score
    /// of the last iteration that ran to its end, or 0 if none did.
    pub fn search(&mut self, depth: usize) -> (r: isize)
        requires
            old(self).pos().wf(),
            old(self).table_ok(),
        ensures
            final(self).pos() == old(self).pos(),
            final(self).table_ok(),
            -SCORE_BOUND <= r <= SCORE_BOUND,
            old(self).pos().is_lost() ==> r == LOSS + old(self).pos().num_moves || r == 0,
            !final(self).was_stopped() ==> r as int == deepening(
                old(self).pos(),
                old(self).table(),
                search_depth_limit(old(self).pos(), depth as nat),
            ).0 && final(self).table() == deepening(
                old(self).pos(),
                old(self).table(),
                search_depth_limit(old(self).pos(), depth as nat),
            ).1,
            final(self).was_stopped() ==> exists|k: nat|
                k < search_depth_limit(old(self).pos(), depth as nat) && r as int == #[trigger] deepening(
                    old(self).pos(),
                    old(self).table(),
                    k,
                ).0,
    {
        self.reset_nodes();
        let max_depth = self.depth_limit(depth);
        let ghost t0 = self.table();
        let mut eval: isize = 0;
        let mut d: usize = 1;
        let ghost start = self.pos();
        while d <= max_depth
            invariant
                self.pos() == start,
                start == old(self).pos(),
                start.wf(),
                self.table_ok(),
                start.num_moves + max_depth <= 255,
                1 <= d,
                -SCORE_BOUND <= eval <= SCORE_BOUND,
                start.is_lost() ==> eval == LOSS + start.num_moves || eval == 0,
                t0 == old(self).table(),
                !self.was_stopped(),
                max_depth == (if depth <= 255 - start.num_moves {
                    depth
                } else {
                    (255 - start.num_moves) as usize
                }),
                d <= max_depth + 1,
                deepening(start, t0, (d - 1) as nat) == (eval as int, self.table(), false),
            decreases max_depth + 1 - d,
        {
            let ghost t_before = self.table();
            let ghost eval_before = eval as int;
            let new_eval = self.search_iteration(d);
            // An iteration that saw the flag is not used.
            if self.stopped || self.abort_search() {
                self.stopped = true;
                assert(deepening(start, t0, (d - 1) as nat).0 == eval as int);
                return eval;
            }
            eval = new_eval;
            assert(deepening(start, t0, d as nat) == (eval as int, self.table(), !(decoded(
                eval as int,
                start.num_moves as int,
            ) is Undetermined)));
            if !self.continue_after(d, max_depth, eval) {
                proof {
                    if d < max_depth {
                        lemma_deepening_settled(start, t0, d as nat, max_depth as nat);
                    }
                }
                return eval;
            }
            d = d + 1;
        }
        eval
    }

    /// The principal variation: the best moves stored in the table, followed
    /// from the current position until a position is missing, repeats, or
    /// the move found cannot be made. The position is left as it was.
    pub fn principal_variation(&mut self) -> (r: Vec<PlayerMove>)
        requires
            old(self).pos().wf(),
            old(self).table_ok(),
        ensures
            final(self).pos() == old(self).pos(),
            final(self).table_ok(),
            final(self).table() == old(self).table(),
            r@ == pv_walk(old(self).pos(), old(self).table(), Seq::empty(), 2 * 255),
    {
        let mut keys: Vec<u64> = Vec::new();
        let mut line: Vec<PlayerMove> = Vec::new();
        let ghost t = self.table();
        let ghost mut states: Seq<PositionModel> = seq![self.pos()];
        let ghost mut made: Seq<BitboardMove> = Seq::empty();
        let mut done = false;
        while !done && keys.len() < 2 * Position::MAX_MOVES
            invariant
                self.pos().wf(),
                self.table_ok(),
                states.len() == keys@.len() + 1,
                made.len() == keys@.len(),
                states[0] == old(self).pos(),
                states.last() == self.pos(),
                walk_ok(states, made),
                self.table() == t,
                t == old(self).table(),
                keys@.len() <= 510,
                line@ + pv_walk(self.pos(), t, keys@, (510 - keys@.len()) as nat) == pv_walk(
                    old(self).pos(),
                    t,
                    Seq::empty(),
                    510,
                ),
                done ==> pv_walk(self.pos(), t, keys@, (510 - keys@.len()) as nat) == Seq::<PlayerMove>::empty(),
            ensures
                self.pos().wf(),
                self.table_ok(),
                states.len() == keys@.len() + 1,
                made.len() == keys@.len(),
                states[0] == old(self).pos(),
                states.last() == self.pos(),
                walk_ok(states, made),
                self.table() == t,
                line@ == pv_walk(old(self).pos(), t, Seq::empty(), 510),
            decreases 2 * Position::MAX_MOVES - keys@.len(),
        {
            let tt_entry = match self.t_table.get(&self.position) {
                Some(e) => e,
                None => {
                    done = true;
                    assert(line@ =~= line@ + Seq::<PlayerMove>::empty());
                    break;
                },
            };
            let key = TranspositionTable::key(&self.position);
            let mut seen = false;
            let mut j: usize = 0;
            while j < keys.len()
                invariant
                    j <= keys@.len(),
                    seen == exists|jj: int| 0 <= jj < j && keys@[jj] == key,
                decreases keys@.len() - j,
            {
                if keys[j] == key {
                    seen = true;
                }
                j = j + 1;
            }
            proof {
                if seen {
                    let jj = choose|jj: int| 0 <= jj < j && keys@[jj] == key;
                    assert(keys@.contains(key));
                } else {
                    assert(!keys@.contains(key));
                }
            }
            let ghost fuel = (510 - keys@.len()) as nat;
            assert(fuel > 0);
            if seen {
                assert(pv_walk(self.pos(), t, keys@, fuel) == Seq::<PlayerMove>::empty());
                assert(line@ =~= line@ + Seq::<PlayerMove>::empty());
                break;
            }
            let bmove = tt_entry.best_move(&self.position);
            let allowed = match bmove {
                BitboardMove::SecondBest => self.position.can_second_best(),
                BitboardMove::StoneMove(_) => self.position.num_moves() < Position::MAX_MOVES,
            };
            if !allowed {
                assert(pv_walk(self.pos(), t, keys@, fuel) == Seq::<PlayerMove>::empty());
                assert(line@ =~= line@ + Seq::<PlayerMove>::empty());
                break;
            }
            let ghost old_keys = keys@;
            let ghost old_line = line@;
            keys.push(key);
            line.push(tt_entry.best_move_for_printing());
            let ghost before = self.pos();
            let ghost old_states = states;
            let ghost old_made = made;
            proof {
                lemma_make_unmake_round_trip(before, bmove);
            }
            self.position.make_move(bmove);
            proof {
                assert(pv_walk(before, t, old_keys, fuel) == seq![printed_move(tt_entry)] + pv_walk(
                    self.pos(),
                    t,
                    keys@,
                    (fuel - 1) as nat,
                ));
                assert(line@ + pv_walk(self.pos(), t, keys@, (510 - keys@.len()) as nat) =~= old_line
                    + pv_walk(before, t, old_keys, fuel));
                states = states.push(self.pos());
                made = made.push(bmove);
                assert forall|j: int| 0 <= j < made.len() implies #[trigger] states[j].wf()
                    && move_allowed(states[j], made[j]) && states[j + 1] == after_move(
                    states[j],
                    made[j],
                ) by {
                    assert(walk_ok(old_states, old_made));
                    if j < old_made.len() {
                        assert(old_states[j].wf());
                        assert(states[j] == old_states[j]);
                        assert(states[j + 1] == old_states[j + 1]);
                        assert(made[j] == old_made[j]);
                    } else {
                        assert(states[j] == before);
                    }
                }
                assert(walk_ok(states, made));
            }
        }
        let mut k = keys.len();
        while k > 0
            invariant
                k <= made.len(),
                states.len() == made.len() + 1,
                states[0] == old(self).pos(),
                self.pos() == states[k as int],
                self.table_ok(),
                self.table() == t,
                t == old(self).table(),
                walk_ok(states, made),
            decreases k,
        {
            proof {
                let j = k - 1;
                assert(walk_ok(states, made));
                assert(states[j].wf() && move_allowed(states[j], made[j]) && states[j + 1] == after_move(states[j], made[j]));
                lemma_make_unmake_round_trip(states[j], made[j]);
            }
            self.position.unmake_move();
            k = k - 1;
        }
        line
    }
}

/// Walk from the solver's position by pseudo-random stone moves until a
/// position with between `min_moves` and `max_moves` moves is found whose
/// search to `max_depth` is a win or a loss in at least `min_depth` moves;
/// return it in notation. Gives up (`None`) when the walk leaves the range,
/// the game ends before `min_moves`, or the stop flag is set. The solver's
/// position is left as it was.
pub fn generate_random_position(
    solver: &mut Solver,
    min_moves: usize,
    max_moves: usize,
    min_depth: usize,
    max_depth: usize,
    seed: usize,
) -> (r: Option<String>)
    requires
        old(solver).pos().wf(),
        old(solver).table_ok(),
        seed <= u32::MAX,
    ensures
        final(solver).pos() == old(solver).pos(),
        final(solver).table_ok(),
        old(solver).pos().num_moves > max_moves ==> r is None,
        !final(solver).was_stopped() ==> (r matches Some(t) ==> exists|q: PositionModel, tt: TableModel|
            serialized(q) == t@ && min_moves <= q.num_moves <= max_moves
                && decided_in_at_least(
                #[trigger] deepening(q, tt, search_depth_limit(q, max_depth as nat)).0,
                q.num_moves as int,
                min_depth as int,
            )),
        old(solver).pos().num_moves < min_moves && old(solver).pos().is_lost() ==> r is None,
        played_by_the_rules(old(solver).pos()) ==> (r matches Some(t) ==> exists|q: PositionModel|
            #[trigger] played_by_the_rules(q) && t@ == serialized(q) && min_moves <= q.num_moves
                <= max_moves),
    decreases 255 - old(solver).pos().num_moves,
{
    if solver.abort_search() {
        return None;
    }
    let n = solver.position.num_moves();
    if n > max_moves {
        // Searching way too deep.
        return None;
    }
    if n < min_moves {
        if solver.position.game_over() {
            return None;
        }
    } else {
        let ghost tt_before = solver.table();
        let eval = solver.search(max_depth);
        match decode_eval(eval, n as isize) {
            ExplainableEval::Undetermined(_) => {},
            ExplainableEval::Win(moves) | ExplainableEval::Loss(moves) => {
                if moves as i128 >= min_depth as i128 {
                    let text = solver.position.serialize();
                    proof {
                        if !solver.was_stopped() {
                            assert(decided_in_at_least(
                                deepening(solver.pos(), tt_before, search_depth_limit(solver.pos(), max_depth as nat)).0,
                                solver.pos().num_moves as int,
                                min_depth as int,
                            ));
                            assert(serialized(solver.pos()) == text@);
                        }
                        if played_by_the_rules(solver.pos()) {
                            assert(played_by_the_rules(solver.pos()) && text@ == serialized(
                                solver.pos(),
                            ) && min_moves <= solver.pos().num_moves <= max_moves);
                        }
                    }
                    return Some(text);
                } else {
                    // Solved too easily.
                    return None;
                }
            },
        }
    }
    if n >= Position::MAX_MOVES || solver.position.game_over() {
        return None;
    }
    let ghost start = solver.pos();
    let mut moves = MoveGen::new(&solver.position, None).collect_moves();
    proof {
        assert forall|i: int| 0 <= i < moves@.len() implies (#[trigger] moves@[i] matches BitboardMove::StoneMove(m) ==> (
            !stone_moves_barred(start) ==> legal_stone_move(start, m))) by {
            assert(crate::movegen::move_ok(start, moves@[i]));
        }
    }
    let mut seed = seed;
    while moves.len() > 0
        invariant
            solver.pos() == start,
            start == old(solver).pos(),
            start.wf(),
            solver.table_ok(),
            start.num_moves < 255,
            seed <= u32::MAX,
            !start.is_lost(),
            n == start.num_moves,
            n <= max_moves,
            forall|i: int|
                0 <= i < moves@.len() ==> (#[trigger] moves@[i] matches BitboardMove::StoneMove(m) ==> (
                !stone_moves_barred(start) ==> legal_stone_move(start, m))),
        decreases moves.len(),
    {
        let (move_i, new_seed) = next_rand(seed);
        seed = new_seed;
        let k = move_i % moves.len();
        let smove = match moves[k] {
            BitboardMove::SecondBest => {
                let ghost before_remove = moves@;
                moves.swap_remove(k);
                proof {
                    assert forall|i: int| 0 <= i < moves@.len() implies (#[trigger] moves@[i] matches BitboardMove::StoneMove(m) ==> (
                        !stone_moves_barred(start) ==> legal_stone_move(start, m))) by {
                        if i == k {
                            assert(moves@[i] == before_remove[before_remove.len() - 1]);
                        } else {
                            assert(moves@[i] == before_remove[i]);
                        }
                    }
                }
                continue;
            },
            BitboardMove::StoneMove(smove) => smove,
        };
        proof {
            assert(moves@[k as int] == BitboardMove::StoneMove(smove));
            assert(legal_stone_move(start, smove));
            if played_by_the_rules(start) {
                let (from, to) = choose|from: Option<usize>, to: usize| #[trigger] start.stone_move_outcome(from, to)
                    == Ok::<u64, MoveFailed>(smove);
                lemma_rules_kept(start, PlayerMove::StoneMove { from, to });
                assert(try_move_outcome(start, PlayerMove::StoneMove { from, to })->Ok_0 == after_stone_move(start, smove));
            }
        }
        solver.position.make_stone_move(smove);
        let found = generate_random_position(solver, min_moves, max_moves, min_depth, max_depth, seed);
        proof {
            crate::position::lemma_make_unmake_round_trip(start, BitboardMove::StoneMove(smove));
        }
        solver.position.unmake_move();
        if found.is_some() {
            return found;
        }
        let ghost before_remove = moves@;
        moves.swap_remove(k);
        proof {
            assert forall|i: int| 0 <= i < moves@.len() implies (#[trigger] moves@[i] matches BitboardMove::StoneMove(m) ==> (
                !stone_moves_barred(start) ==> legal_stone_move(start, m))) by {
                if i == k {
                    assert(moves@[i] == before_remove[before_remove.len() - 1]);
                } else {
                    assert(moves@[i] == before_remove[i]);
                }
            }
        }
    }
    None
}

impl Default for Solver {
    fn default() -> (r: Self)
        ensures
            r.pos() == initial_model(),
            r.pos().wf(),
            r.table_ok(),
    {
        Solver::new(Arc::new(AtomicBool::new(false)))
    }
}

} // verus!
