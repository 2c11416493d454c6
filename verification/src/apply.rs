//! Applying a move to a board, and undoing one.
//!
//! The engine searches with a clone-per-branch discipline: `domove` leaves
//! its input untouched and returns the successor position. Because a move
//! carries both endpoints' previous contents, `undo` can restore a position
//! without consulting anything else.
//!
//! Two behaviors are deliberate design decisions rather than accidents:
//! an en-passant move only relocates the capturing pawn (the passed-over
//! pawn is not removed), keeping move application a two-cell transform that
//! `undo` inverts exactly; and capturing a king records a winner on the
//! board, which the search treats as a terminal position.

use vstd::prelude::*;

use crate::board::Board;
use crate::board::BoardState;
use crate::board::Kind;
use crate::board::Move;
use crate::board::Piece;
use crate::board::empty_piece;
use crate::board::on_board;
use crate::board::piece_ok;
use crate::board::sq;
use crate::board::state_wf;
use crate::movegen::move_ok;

verus! {

/// The piece that ends up on the destination cell: the moving piece, or a
/// queen of its color when the move promotes (promotion is always to a
/// queen).
pub open spec fn landing_piece(m: Move) -> Piece {
    if m.promotion {
        Piece { kind: Kind::Queen, color: m.p0.color }
    } else {
        m.p0
    }
}

/// The grid after playing m: the landing piece on the destination, the
/// origin cleared.
pub open spec fn apply_grid(g: Seq<Piece>, m: Move) -> Seq<Piece> {
    g.update(sq(m.x1 as int, m.y1 as int), landing_piece(m)).update(
        sq(m.x0 as int, m.y0 as int),
        empty_piece(),
    )
}

/// The board state after playing m: the grid transformed, the move
/// appended to the history, the side to move flipped, and the winner set
/// to the mover's color when the move captures a king (else cleared).
pub open spec fn next_state(s: BoardState, m: Move) -> BoardState {
    BoardState {
        grid: apply_grid(s.grid, m),
        side: -s.side,
        history: s.history.push(m),
        winner: if m.p1.kind == Kind::King {
            -m.p1.color as int
        } else {
            0
        },
    }
}

/// The board state after undoing m: the moving piece back on its origin,
/// the recorded previous occupant back on the destination, the side
/// flipped back, the move removed from the history, and the winner
/// cleared (a position one can still move from is undecided).
pub open spec fn undo_state(s: BoardState, m: Move) -> BoardState {
    BoardState {
        grid: s.grid.update(sq(m.x0 as int, m.y0 as int), m.p0).update(
            sq(m.x1 as int, m.y1 as int),
            m.p1,
        ),
        side: -s.side,
        history: if s.history.len() > 0 {
            s.history.drop_last()
        } else {
            s.history
        },
        winner: 0,
    }
}

/// The preconditions under which a move can be applied: both endpoints on
/// the board, and pieces that keep the grid well formed.
pub open spec fn can_apply(m: Move) -> bool {
    &&& on_board(m.x0 as int, m.y0 as int)
    &&& on_board(m.x1 as int, m.y1 as int)
    &&& piece_ok(m.p0)
    &&& piece_ok(m.p1)
    &&& (m.promotion ==> m.p0.color != 0)
}

/// Produces the successor board of playing m, leaving the input untouched;
/// each search branch owns its own copy of the position.
pub fn domove(b: &Board, m: &Move) -> (r: Board)
    requires
        b.wf(),
        can_apply(*m),
    ensures
        r@ == next_state(b@, *m),
        r.wf(),
{
    let mut board = clone_board(b);
    if m.promotion {
        board.write(m.x1, m.y1, Piece { kind: Kind::Queen, color: m.p0.color });
        board.write(m.x0, m.y0, Piece { kind: Kind::Empty, color: 0 });
    } else {
        board.write(m.x1, m.y1, m.p0);
        board.write(m.x0, m.y0, Piece { kind: Kind::Empty, color: 0 });
    }
    board.history.push(*m);
    if m.p1.kind == Kind::King {
        board.winner = -m.p1.color;
    } else {
        board.winner = 0;
    }
    board.side = -board.side;
    proof {
        assert(board@.history =~= b@.history.push(*m));
        assert(board@ =~= next_state(b@, *m));
    }
    board
}

/// Produces the board before m was played, from the board after: the move
/// itself records everything that the two affected cells held.
pub fn undo(b: &Board, m: &Move) -> (r: Board)
    requires
        b.wf(),
        on_board(m.x0 as int, m.y0 as int),
        on_board(m.x1 as int, m.y1 as int),
        piece_ok(m.p0),
        piece_ok(m.p1),
    ensures
        r@ == undo_state(b@, *m),
        r.wf(),
{
    let mut board = clone_board(b);
    board.write(m.x0, m.y0, m.p0);
    board.write(m.x1, m.y1, m.p1);
    if board.history.len() > 0 {
        board.history.pop();
    }
    board.winner = 0;
    board.side = -board.side;
    proof {
        if b@.history.len() > 0 {
            assert(board@.history =~= b@.history.drop_last());
        }
        assert(board@ =~= undo_state(b@, *m));
    }
    board
}

/// An exact copy of a board.
fn clone_board(b: &Board) -> (r: Board)
    requires
        b.wf(),
    ensures
        r@ == b@,
        r.wf(),
{
    let mut cells: Vec<Piece> = Vec::new();
    let mut i: usize = 0;
    while i < b.cells.len()
        invariant
            i <= b.cells.len(),
            cells@ =~= b.cells@.take(i as int),
        decreases b.cells.len() - i,
    {
        cells.push(b.cells[i]);
        i += 1;
    }
    let mut history: Vec<Move> = Vec::new();
    let mut i: usize = 0;
    while i < b.history.len()
        invariant
            i <= b.history.len(),
            history@ =~= b.history@.take(i as int),
        decreases b.history.len() - i,
    {
        history.push(b.history[i]);
        i += 1;
    }
    let res = Board { side: b.side, cells, history, winner: b.winner };
    proof {
        assert(cells@ =~= b.cells@);
        assert(history@ =~= b.history@);
        assert(res@ =~= b@);
    }
    res
}

/// Applying a generated move preserves well-formedness, and the moved-to
/// state's side is the opponent.
pub proof fn lemma_next_state_wf(s: BoardState, m: Move)
    requires
        state_wf(s),
        move_ok(s, m),
    ensures
        state_wf(next_state(s, m)),
        can_apply(m),
{
    assert(piece_ok(s.grid[sq(m.x0 as int, m.y0 as int)]));
    assert forall|i: int| 0 <= i < 64 implies piece_ok(
        #[trigger] next_state(s, m).grid[i],
    ) by {
        assert(piece_ok(s.grid[i]));
    }
}

/// Applying a move and then undoing it restores the position exactly:
/// grid, side to move, history, and winner all revert. This holds for
/// every move the generator produces from an undecided position.
pub proof fn lemma_apply_then_undo(s: BoardState, m: Move)
    requires
        state_wf(s),
        move_ok(s, m),
        s.winner == 0,
    ensures
        undo_state(next_state(s, m), m) == s,
{
    let t = undo_state(next_state(s, m), m);
    assert(t.grid =~= s.grid);
    assert(t.history =~= s.history);
    assert(t =~= s);
}

} // verus!
