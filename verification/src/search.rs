//! The search engine: fixed-depth negamax with alpha-beta pruning.
//!
//! Scores follow the negamax sign convention: a value is always from the
//! perspective of the side to move at that node. A position is terminal
//! when the depth is exhausted or a king has been captured (the winner
//! field is set); a position with no pseudo-legal moves is also treated
//! as terminal and scored statically — that policy is this engine's
//! explicit choice for the otherwise-undefined no-move case.

use vstd::prelude::*;

use crate::apply::domove;
use crate::apply::lemma_next_state_wf;
use crate::apply::next_state;
use crate::board::Board;
use crate::board::BoardState;
use crate::board::Move;
use crate::board::state_wf;
use crate::eval::EVAL_LIMIT;
use crate::eval::eval_spec;
use crate::eval::lemma_eval_upto_bound;
use crate::movegen::gen_moves;
use crate::movegen::lemma_gen_moves_ok;
use crate::movegen::move_ok;

verus! {

/// The finite sentinel standing in for an infinite window bound: larger in
/// magnitude than any reachable evaluation, yet safely negatable.
pub const SCORE_INF: i64 = 1_000_000_000;

/// The larger of two scores.
pub open spec fn max_score(a: int, b: int) -> int {
    if a >= b {
        a
    } else {
        b
    }
}

/// The static score of a terminal node, from the side to move's
/// perspective.
pub open spec fn leaf_score(s: BoardState) -> int {
    s.side * eval_spec(s.grid)
}

/// The value of the position s searched to the given depth with the
/// window (alpha, beta): the terminal score at depth 0, on a decided
/// position, or when no moves exist; otherwise the fold of the move list.
pub open spec fn negamax_spec(s: BoardState, depth: int, alpha: int, beta: int) -> int
    decreases depth, 1int, 0int,
{
    if depth <= 0 || s.winner != 0 {
        leaf_score(s)
    } else {
        let ms = gen_moves(s);
        if ms.len() == 0 {
            leaf_score(s)
        } else {
            nm_loop(s, depth, alpha, beta, -SCORE_INF as int, ms, 0)
        }
    }
}

/// The alpha-beta fold from move i onward, carrying the running best value
/// and the raised alpha: each move's subtree is searched with the negated,
/// swapped window, alpha rises to the running maximum afterwards, and the
/// fold stops early once alpha meets beta.
pub open spec fn nm_loop(
    s: BoardState,
    depth: int,
    alpha: int,
    beta: int,
    value: int,
    ms: Seq<Move>,
    i: int,
) -> int
    decreases depth, 0int, ms.len() - i,
{
    if i < 0 || i >= ms.len() || depth <= 0 {
        value
    } else {
        let v2 = max_score(
            value,
            -negamax_spec(next_state(s, ms[i]), depth - 1, -beta, -alpha),
        );
        let a2 = max_score(alpha, v2);
        if a2 >= beta {
            v2
        } else {
            nm_loop(s, depth, a2, beta, v2, ms, i + 1)
        }
    }
}

/// The best value among moves i and onward of the full-width search: the
/// plain negamax fold with no pruning window.
pub open spec fn best_from(s: BoardState, depth: int, ms: Seq<Move>, i: int) -> int
    decreases depth, 0int, ms.len() - i,
{
    if i < 0 || i >= ms.len() || depth <= 0 {
        -SCORE_INF as int
    } else {
        max_score(
            -full_negamax(next_state(s, ms[i]), depth - 1),
            best_from(s, depth, ms, i + 1),
        )
    }
}

/// The full-width fold never falls below the starting sentinel.
proof fn lemma_best_from_ge(s: BoardState, depth: int, ms: Seq<Move>, i: int)
    ensures
        best_from(s, depth, ms, i) >= -SCORE_INF as int,
    decreases depth, 0int, ms.len() - i,
{
    if !(i < 0 || i >= ms.len() || depth <= 0) {
        lemma_best_from_ge(s, depth, ms, i + 1);
    }
}

/// The full-width negamax value of the position: every subtree is
/// examined, no pruning.
pub open spec fn full_negamax(s: BoardState, depth: int) -> int
    decreases depth, 1int, 0int,
{
    if depth <= 0 || s.winner != 0 {
        leaf_score(s)
    } else {
        let ms = gen_moves(s);
        if ms.len() == 0 {
            leaf_score(s)
        } else {
            best_from(s, depth, ms, 0)
        }
    }
}

/// Terminal scores stay within the evaluator's range.
proof fn lemma_leaf_bound(s: BoardState)
    requires
        state_wf(s),
    ensures
        -EVAL_LIMIT <= leaf_score(s) <= EVAL_LIMIT,
{
    lemma_eval_upto_bound(s.grid, 64);
    let e = eval_spec(s.grid);
    assert(1 * e == e);
    assert(-1 * e == -e);
}

/// Full-width search values stay within the evaluator's range: they are
/// maxima of negated deeper values, bottoming out in static evaluations.
proof fn lemma_full_bound(s: BoardState, depth: int)
    requires
        state_wf(s),
        0 <= depth,
    ensures
        -EVAL_LIMIT <= full_negamax(s, depth) <= EVAL_LIMIT,
    decreases depth, 1int, 0int,
{
    if depth <= 0 || s.winner != 0 {
        lemma_leaf_bound(s);
    } else {
        let ms = gen_moves(s);
        if ms.len() == 0 {
            lemma_leaf_bound(s);
        } else {
            lemma_best_bound(s, depth, ms, 0);
        }
    }
}

proof fn lemma_best_bound(s: BoardState, depth: int, ms: Seq<Move>, i: int)
    requires
        state_wf(s),
        1 <= depth,
        ms == gen_moves(s),
        0 <= i <= ms.len(),
    ensures
        best_from(s, depth, ms, i) <= EVAL_LIMIT,
        i < ms.len() ==> best_from(s, depth, ms, i) >= -EVAL_LIMIT,
    decreases depth, 0int, ms.len() - i,
{
    if i < ms.len() {
        lemma_gen_moves_ok(s);
        assert(move_ok(s, ms[i]));
        lemma_next_state_wf(s, ms[i]);
        lemma_full_bound(next_state(s, ms[i]), depth - 1);
        lemma_best_bound(s, depth, ms, i + 1);
    }
}

/// The alpha-beta window theorem, stated over the fold from move i: with
/// fv the true (full-width) value of continuing from the running value,
/// the pruned fold returns fv exactly when fv lies inside the window, and
/// otherwise a value on fv's side of the bound it crossed.
proof fn lemma_ab_loop(
    s: BoardState,
    depth: int,
    alpha: int,
    beta: int,
    value: int,
    ms: Seq<Move>,
    i: int,
)
    requires
        state_wf(s),
        1 <= depth,
        ms == gen_moves(s),
        0 <= i <= ms.len(),
        -SCORE_INF as int <= value <= alpha < beta,
        beta <= SCORE_INF as int,
    ensures
        ({
            let fv = max_score(value, best_from(s, depth, ms, i));
            let r = nm_loop(s, depth, alpha, beta, value, ms, i);
            &&& (fv <= alpha ==> fv <= r && r <= alpha)
            &&& (fv >= beta ==> beta <= r && r <= fv)
            &&& (alpha < fv < beta ==> r == fv)
        }),
    decreases depth, 0int, ms.len() - i,
{
    if i >= ms.len() {
        // the fold is finished: it returns the running value exactly
    } else {
        lemma_gen_moves_ok(s);
        assert(move_ok(s, ms[i]));
        lemma_next_state_wf(s, ms[i]);
        let c = next_state(s, ms[i]);
        let vi = -full_negamax(c, depth - 1);
        let ti = -negamax_spec(c, depth - 1, -beta, -alpha);
        lemma_ab(c, depth - 1, -beta, -alpha);
        let v2 = max_score(value, ti);
        let a2 = max_score(alpha, v2);
        let tail = best_from(s, depth, ms, i + 1);
        lemma_best_from_ge(s, depth, ms, i + 1);
        assert(best_from(s, depth, ms, i) == max_score(vi, tail));
        if vi >= beta {
            // the child failed low, so this move already meets beta: cutoff
            assert(beta <= ti <= vi);
            assert(nm_loop(s, depth, alpha, beta, value, ms, i) == ti);
        } else if vi > alpha {
            // the child's value is exact; it becomes both value and alpha
            assert(ti == vi);
            lemma_ab_loop(s, depth, vi, beta, vi, ms, i + 1);
        } else {
            // the child failed high: its bound cannot beat alpha
            assert(vi <= ti <= alpha);
            lemma_ab_loop(s, depth, alpha, beta, v2, ms, i + 1);
        }
    }
}

/// The alpha-beta window theorem: against the full-width value v, the
/// pruned search returns v exactly when alpha < v < beta, at most alpha
/// (but at least v) when v fails low, and at least beta (but at most v)
/// when v fails high.
proof fn lemma_ab(s: BoardState, depth: int, alpha: int, beta: int)
    requires
        state_wf(s),
        0 <= depth,
        -SCORE_INF as int <= alpha < beta,
        beta <= SCORE_INF as int,
    ensures
        ({
            let v = full_negamax(s, depth);
            let r = negamax_spec(s, depth, alpha, beta);
            &&& (v <= alpha ==> v <= r && r <= alpha)
            &&& (v >= beta ==> beta <= r && r <= v)
            &&& (alpha < v < beta ==> r == v)
        }),
    decreases depth, 1int, 0int,
{
    if depth <= 0 || s.winner != 0 {
        // terminal: both searches return the static score
    } else {
        let ms = gen_moves(s);
        if ms.len() > 0 {
            lemma_best_from_ge(s, depth, ms, 0);
            lemma_ab_loop(s, depth, alpha, beta, -SCORE_INF as int, ms, 0);
        }
    }
}

/// A depth-0 search returns the side to move's signed view of the static
/// evaluation, for any board and any window: it is independent of move
/// generation and of pruning.
pub proof fn lemma_depth_zero(s: BoardState, alpha: int, beta: int)
    ensures
        negamax_spec(s, 0, alpha, beta) == s.side * eval_spec(s.grid),
{
}

/// Pruning never changes the returned value, only the work performed:
/// with the full window, the alpha-beta search equals the full-width
/// negamax search, at every depth and from every well-formed position.
pub proof fn lemma_pruning_is_sound(s: BoardState, depth: int)
    requires
        state_wf(s),
        0 <= depth,
    ensures
        negamax_spec(s, depth, -SCORE_INF as int, SCORE_INF as int) == full_negamax(s, depth),
{
    lemma_full_bound(s, depth);
    lemma_ab(s, depth, -SCORE_INF as int, SCORE_INF as int);
}

impl Board {
    /// The terminal score: the side to move's signed view of the static
    /// evaluation.
    fn leaf_value(&self) -> (r: i64)
        requires
            self.wf(),
        ensures
            r == leaf_score(self@),
            -EVAL_LIMIT <= r <= EVAL_LIMIT,
    {
        let e = self.evaluate();
        if self.side == 1 {
            e
        } else {
            proof {
                assert(self@.side == -1);
                let ev = eval_spec(self@.grid);
                assert(-1 * ev == -ev) by (nonlinear_arith);
            }
            -e
        }
    }
}

/// Negamax search with alpha-beta pruning to the given depth. The result
/// is exactly the value of the alpha-beta fold; with the full window
/// (-SCORE_INF, SCORE_INF) it equals the full-width negamax value (see
/// `lemma_pruning_is_sound`).
pub fn negamax(b: &Board, depth: u32, alpha: i64, beta: i64) -> (r: i64)
    requires
        b.wf(),
        -SCORE_INF <= alpha <= SCORE_INF,
        -SCORE_INF <= beta <= SCORE_INF,
    ensures
        r == negamax_spec(b@, depth as int, alpha as int, beta as int),
        -SCORE_INF <= r <= SCORE_INF,
    decreases depth,
{
    if depth == 0 || b.winner != 0 {
        return b.leaf_value();
    }
    let moves = b.calculate();
    if moves.len() == 0 {
        return b.leaf_value();
    }
    proof {
        lemma_gen_moves_ok(b@);
    }
    let ghost s = b@;
    let ghost ms = moves@;
    let ghost d = depth as int;
    let ghost beta0 = beta as int;
    let mut value: i64 = -SCORE_INF;
    let mut a: i64 = alpha;
    let mut i: usize = 0;
    while i < moves.len()
        invariant_except_break
            b.wf(),
            s == b@,
            ms == moves@,
            ms == gen_moves(s),
            d == depth as int,
            1 <= d,
            beta0 == beta as int,
            -SCORE_INF <= beta <= SCORE_INF,
            forall|k: int| 0 <= k < ms.len() ==> move_ok(s, #[trigger] ms[k]),
            i <= ms.len(),
            -SCORE_INF <= value <= SCORE_INF,
            -SCORE_INF <= a <= SCORE_INF,
            nm_loop(s, d, alpha as int, beta0, -SCORE_INF as int, ms, 0) == nm_loop(
                s,
                d,
                a as int,
                beta0,
                value as int,
                ms,
                i as int,
            ),
        ensures
            -SCORE_INF <= value <= SCORE_INF,
            value == nm_loop(s, d, alpha as int, beta0, -SCORE_INF as int, ms, 0),
        decreases ms.len() - i,
    {
        let m = moves[i];
        proof {
            assert(move_ok(s, ms[i as int]));
            lemma_next_state_wf(s, ms[i as int]);
        }
        let child = domove(b, &m);
        let v = negamax(&child, depth - 1, -beta, -a);
        let ghost value_pre = value as int;
        let ghost a_pre = a as int;
        if -v > value {
            value = -v;
        }
        if value > a {
            a = value;
        }
        proof {
            assert(value as int == max_score(
                value_pre,
                -negamax_spec(next_state(s, ms[i as int]), d - 1, -beta0, -a_pre),
            ));
            assert(a as int == max_score(a_pre, value as int));
        }
        if a >= beta {
            proof {
                assert(nm_loop(s, d, a_pre, beta0, value_pre, ms, i as int) == value as int);
            }
            break ;
        }
        proof {
            assert(nm_loop(s, d, a_pre, beta0, value_pre, ms, i as int) == nm_loop(
                s,
                d,
                a as int,
                beta0,
                value as int,
                ms,
                i as int + 1,
            ));
        }
        i += 1;
    }
    value
}

/// Full-width negamax to the given depth: the reference search with no
/// pruning, examining every subtree.
pub fn negamax_full(b: &Board, depth: u32) -> (r: i64)
    requires
        b.wf(),
    ensures
        r == full_negamax(b@, depth as int),
        -SCORE_INF <= r <= SCORE_INF,
    decreases depth,
{
    if depth == 0 || b.winner != 0 {
        return b.leaf_value();
    }
    let moves = b.calculate();
    if moves.len() == 0 {
        return b.leaf_value();
    }
    proof {
        lemma_gen_moves_ok(b@);
        lemma_best_from_ge(b@, depth as int, moves@, 0);
    }
    let ghost s = b@;
    let ghost ms = moves@;
    let ghost d = depth as int;
    let mut value: i64 = -SCORE_INF;
    let mut i: usize = 0;
    while i < moves.len()
        invariant
            b.wf(),
            s == b@,
            ms == moves@,
            ms == gen_moves(s),
            d == depth as int,
            1 <= d,
            depth >= 1,
            forall|k: int| 0 <= k < ms.len() ==> move_ok(s, #[trigger] ms[k]),
            i <= ms.len(),
            -SCORE_INF <= value <= SCORE_INF,
            max_score(value as int, best_from(s, d, ms, i as int)) == best_from(s, d, ms, 0),
        decreases ms.len() - i,
    {
        let m = moves[i];
        proof {
            assert(move_ok(s, ms[i as int]));
            lemma_next_state_wf(s, ms[i as int]);
        }
        let child = domove(b, &m);
        let v = negamax_full(&child, depth - 1);
        let ghost value_pre = value as int;
        if -v > value {
            value = -v;
        }
        proof {
            assert(value as int == max_score(
                value_pre,
                -full_negamax(next_state(s, ms[i as int]), d - 1),
            ));
            assert(best_from(s, d, ms, i as int) == max_score(
                -full_negamax(next_state(s, ms[i as int]), d - 1),
                best_from(s, d, ms, i as int + 1),
            ));
        }
        i += 1;
    }
    proof {
        assert(best_from(s, d, ms, ms.len() as int) == -SCORE_INF as int);
    }
    value
}

} // verus!
