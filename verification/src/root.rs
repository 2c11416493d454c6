//! The root dispatcher: scores every root move and selects the best.
//!
//! Each root move is an independent unit of work — apply the move, search
//! the resulting position with the full window from the opponent's
//! perspective, and negate the result back to the root side's view. A
//! caller that fans these units out in parallel gathers the scores in move
//! order and hands them to `select_best`, so the selection never depends
//! on completion order; `choose_best_move` runs the same pipeline
//! serially and is the engine's reference entry point.

use vstd::prelude::*;

use crate::apply::domove;
use crate::apply::lemma_next_state_wf;
use crate::apply::next_state;
use crate::board::Board;
use crate::board::BoardState;
use crate::board::Kind;
use crate::board::Move;
use crate::movegen::gen_moves;
use crate::movegen::lemma_gen_moves_ok;
use crate::movegen::move_ok;
use crate::search::SCORE_INF;
use crate::search::negamax;
use crate::search::negamax_spec;

verus! {

/// The score of one root move: the searched value of the successor
/// position, negated to the root side's perspective.
pub open spec fn root_score(s: BoardState, m: Move, depth: int) -> int {
    -negamax_spec(next_state(s, m), depth, -SCORE_INF as int, SCORE_INF as int)
}

/// The scores of a whole root move list, in move order.
pub open spec fn root_scores(s: BoardState, ms: Seq<Move>, depth: int) -> Seq<int> {
    Seq::new(ms.len(), |i: int| root_score(s, ms[i], depth))
}

/// The scan for the strictly greatest score from position i with current
/// best cur: a later score displaces the best only when strictly greater,
/// so the earliest maximum wins ties.
pub open spec fn best_idx_from(vals: Seq<int>, i: int, cur: int) -> int
    decreases vals.len() - i,
{
    if i < 0 || i >= vals.len() {
        cur
    } else {
        best_idx_from(
            vals,
            i + 1,
            if vals[i] > vals[cur] {
                i
            } else {
                cur
            },
        )
    }
}

/// The index of the greatest score; the first occurrence wins ties.
pub open spec fn best_idx(vals: Seq<int>) -> int {
    best_idx_from(vals, 0, 0)
}

proof fn lemma_best_idx_from_in_range(vals: Seq<int>, i: int, cur: int)
    requires
        0 <= cur < vals.len(),
        0 <= i,
    ensures
        0 <= best_idx_from(vals, i, cur) < vals.len(),
    decreases vals.len() - i,
{
    if i < vals.len() {
        lemma_best_idx_from_in_range(
            vals,
            i + 1,
            if vals[i] > vals[cur] {
                i
            } else {
                cur
            },
        );
    }
}

/// The selected index always lies within the score list.
proof fn lemma_best_idx_in_range(vals: Seq<int>)
    requires
        vals.len() > 0,
    ensures
        0 <= best_idx(vals) < vals.len(),
{
    lemma_best_idx_from_in_range(vals, 0, 0);
}

/// Selects the index of the strictly greatest value; the first occurrence
/// wins ties. Deterministic in the list alone, so gathering parallel
/// results in move order makes the selection independent of completion
/// order.
pub fn select_best(values: &Vec<i64>) -> (r: usize)
    requires
        values.len() > 0,
    ensures
        r < values.len(),
        r as int == best_idx(values@.map_values(|v: i64| v as int)),
{
    let ghost vals = values@.map_values(|v: i64| v as int);
    let mut max_index: usize = 0;
    let mut i: usize = 0;
    while i < values.len()
        invariant
            values.len() > 0,
            vals == values@.map_values(|v: i64| v as int),
            vals.len() == values.len(),
            max_index < values.len(),
            i <= values.len(),
            best_idx_from(vals, i as int, max_index as int) == best_idx(vals),
        decreases values.len() - i,
    {
        if values[i] > values[max_index] {
            max_index = i;
        }
        i += 1;
    }
    max_index
}

/// Scores one root move of the position: applies it and searches the
/// successor to the given depth with the full window, negating the result
/// to the root side's perspective. A move that is not one of this
/// position's — wrong endpoints, wrong contents, or the wrong color to
/// move — is rejected with `None` rather than trusted, so a parallel
/// caller can hand moves back without any precondition beyond a
/// well-formed board.
pub fn score_root_move(b: &Board, m: &Move, depth: u32) -> (r: Option<i64>)
    requires
        b.wf(),
    ensures
        r is Some <==> move_ok(b@, *m),
        match r {
            Some(v) => v == root_score(b@, *m, depth as int),
            None => !move_ok(b@, *m),
        },
{
    if m.x0 < 0 || m.x0 > 7 || m.y0 < 0 || m.y0 > 7 {
        return None;
    }
    if m.x1 < 0 || m.x1 > 7 || m.y1 < 0 || m.y1 > 7 {
        return None;
    }
    if m.x0 == m.x1 && m.y0 == m.y1 {
        return None;
    }
    let origin = b.cells[(m.y0 * 8 + m.x0) as usize];
    let target = b.cells[(m.y1 * 8 + m.x1) as usize];
    if !(origin == m.p0 && target == m.p1 && m.p0.color == b.side) {
        return None;
    }
    if let Kind::Empty = m.p0.kind {
        return None;
    }
    proof {
        assert(move_ok(b@, *m));
        lemma_next_state_wf(b@, *m);
    }
    let child = domove(b, m);
    let v = negamax(&child, depth, -SCORE_INF, SCORE_INF);
    Some(-v)
}

/// Chooses the best move of the position: every root move is scored by a
/// full-window search of its subtree to the given depth, and the move
/// with the strictly greatest score is returned with that score (the
/// first such move on ties). `None` exactly when the position has no
/// pseudo-legal moves.
pub fn choose_best_move(b: &Board, depth: u32) -> (r: Option<(Move, i64)>)
    requires
        b.wf(),
    ensures
        r is Some <==> gen_moves(b@).len() > 0,
        match r {
            Some(best) => {
                let ms = gen_moves(b@);
                let scores = root_scores(b@, ms, depth as int);
                let k = best_idx(scores);
                &&& 0 <= k < ms.len()
                &&& best.0 == ms[k]
                &&& best.1 == scores[k]
            },
            None => gen_moves(b@).len() == 0,
        },
{
    let moves = b.calculate();
    if moves.len() == 0 {
        return None;
    }
    proof {
        lemma_gen_moves_ok(b@);
    }
    let ghost s = b@;
    let ghost ms = moves@;
    let ghost d = depth as int;
    let mut values: Vec<i64> = Vec::new();
    let mut i: usize = 0;
    while i < moves.len()
        invariant
            b.wf(),
            s == b@,
            ms == moves@,
            ms == gen_moves(s),
            d == depth as int,
            forall|k: int| 0 <= k < ms.len() ==> move_ok(s, #[trigger] ms[k]),
            i <= ms.len(),
            values@.len() == i,
            forall|j: int| 0 <= j < i ==> values@[j] == root_score(s, ms[j], d),
        decreases ms.len() - i,
    {
        let m = moves[i];
        proof {
            assert(move_ok(s, ms[i as int]));
            lemma_next_state_wf(s, ms[i as int]);
        }
        let child = domove(b, &m);
        let v = negamax(&child, depth, -SCORE_INF, SCORE_INF);
        values.push(-v);
        i += 1;
    }
    let k = select_best(&values);
    proof {
        assert(values@.map_values(|v: i64| v as int) =~= root_scores(s, ms, d));
        lemma_best_idx_in_range(root_scores(s, ms, d));
    }
    Some((moves[k], values[k]))
}

} // verus!

