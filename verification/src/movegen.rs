//! Pseudo-legal move generation, dispatched by piece kind.
//!
//! Every generated move obeys the piece's movement rules but is not checked
//! against leaving the mover's own king capturable: that filter is a
//! deliberate scope limit of the engine. Moves are appended in cell-scan
//! order (index 0..63) and, within a piece, in a fixed direction order, so
//! the output sequence is fully determined by the position.

use vstd::prelude::*;

use crate::board::Board;
use crate::board::BoardState;
use crate::board::Kind;
use crate::board::Move;
use crate::board::Piece;
use crate::board::empty_piece;
use crate::board::piece_ok;
use crate::board::state_wf;
use crate::board::on_board;
use crate::board::sq;

verus! {

/// Builds a move value; the castle flag is never set by any generator.
pub open spec fn mk_move(
    p0: Piece,
    x0: int,
    y0: int,
    p1: Piece,
    x1: int,
    y1: int,
    capture: bool,
    promotion: bool,
    enpassant: bool,
) -> Move {
    Move {
        p0,
        x0: x0 as i32,
        y0: y0 as i32,
        p1,
        x1: x1 as i32,
        y1: y1 as i32,
        capture,
        promotion,
        enpassant,
        castle: false,
    }
}

/// The moves of a single fixed offset (knight jumps and king steps): one
/// move when the target is on the board and not held by a same-color piece,
/// flagged as a capture when the target holds an enemy piece.
pub open spec fn step_moves(g: Seq<Piece>, x: int, y: int, p: Piece, dx: int, dy: int) -> Seq<
    Move,
> {
    if on_board(x + dx, y + dy) {
        let d = g[sq(x + dx, y + dy)];
        if d.color != p.color {
            seq![mk_move(p, x, y, d, x + dx, y + dy, d.color != 0, false, false)]
        } else {
            seq![]
        }
    } else {
        seq![]
    }
}

/// The moves along one ray, examined step i and outward: an empty cell is
/// added and the ray continues; an enemy cell is added as a capture and the
/// ray stops; a friendly cell or the board edge stops the ray.
pub open spec fn ray_moves(
    g: Seq<Piece>,
    x: int,
    y: int,
    p: Piece,
    dx: int,
    dy: int,
    i: int,
) -> Seq<Move>
    decreases 8 - i,
{
    if i < 1 || i >= 8 {
        seq![]
    } else if !on_board(x + dx * i, y + dy * i) {
        seq![]
    } else {
        let d = g[sq(x + dx * i, y + dy * i)];
        if d.color == p.color {
            seq![]
        } else {
            let m = seq![
                mk_move(p, x, y, d, x + dx * i, y + dy * i, d.color != 0, false, false),
            ];
            if d.color == -p.color {
                m
            } else {
                m + ray_moves(g, x, y, p, dx, dy, i + 1)
            }
        }
    }
}

/// The knight's jump offsets, in the fixed generation order.
pub open spec fn knight_offset(k: int) -> (int, int) {
    if k == 0 {
        (2, 1)
    } else if k == 1 {
        (2, -1)
    } else if k == 2 {
        (1, -2)
    } else if k == 3 {
        (-1, -2)
    } else if k == 4 {
        (-2, -1)
    } else if k == 5 {
        (-2, 1)
    } else if k == 6 {
        (-1, 2)
    } else {
        (1, 2)
    }
}

/// Knight jumps number k and onward.
pub open spec fn knight_steps(g: Seq<Piece>, x: int, y: int, p: Piece, k: int) -> Seq<Move>
    decreases 8 - k,
{
    if k < 0 || k >= 8 {
        seq![]
    } else {
        step_moves(g, x, y, p, knight_offset(k).0, knight_offset(k).1) + knight_steps(
            g,
            x,
            y,
            p,
            k + 1,
        )
    }
}

/// Knight moves: the eight (+-1,+-2)/(+-2,+-1) offsets in a fixed order.
pub open spec fn knight_moves(g: Seq<Piece>, x: int, y: int, p: Piece) -> Seq<Move> {
    knight_steps(g, x, y, p, 0)
}

/// King steps number k and onward, scanning the 3x3 block around the king
/// in the order (-1,-1), (-1,0), ..., (1,1): offset k is (k/3 - 1, k%3 - 1).
/// The piece's own cell (k = 4) contributes nothing because it holds the
/// king itself.
pub open spec fn king_steps(g: Seq<Piece>, x: int, y: int, p: Piece, k: int) -> Seq<Move>
    decreases 9 - k,
{
    if k < 0 || k >= 9 {
        seq![]
    } else {
        step_moves(g, x, y, p, k / 3 - 1, k % 3 - 1) + king_steps(g, x, y, p, k + 1)
    }
}

/// King moves: the eight adjacent cells.
pub open spec fn king_moves(g: Seq<Piece>, x: int, y: int, p: Piece) -> Seq<Move> {
    king_steps(g, x, y, p, 0)
}

/// Bishop moves: the four diagonal rays.
pub open spec fn bishop_moves(g: Seq<Piece>, x: int, y: int, p: Piece) -> Seq<Move> {
    ray_moves(g, x, y, p, 1, 1, 1) + ray_moves(g, x, y, p, -1, 1, 1) + ray_moves(
        g,
        x,
        y,
        p,
        -1,
        -1,
        1,
    ) + ray_moves(g, x, y, p, 1, -1, 1)
}

/// Rook moves: the four orthogonal rays.
pub open spec fn rook_moves(g: Seq<Piece>, x: int, y: int, p: Piece) -> Seq<Move> {
    ray_moves(g, x, y, p, 0, 1, 1) + ray_moves(g, x, y, p, -1, 0, 1) + ray_moves(
        g,
        x,
        y,
        p,
        0,
        -1,
        1,
    ) + ray_moves(g, x, y, p, 1, 0, 1)
}

/// A pawn promotes when it lands on either back rank.
pub open spec fn promo_rank(y1: int) -> bool {
    y1 == 0 || y1 == 7
}

/// The rank a pawn of color c starts from, which permits the two-square
/// advance.
pub open spec fn pawn_start_rank(c: int) -> int {
    if c == 1 {
        1
    } else {
        6
    }
}

/// Forward pawn moves: one square when it is empty (promoting on the back
/// rank), and from the starting rank also two squares; the two-square
/// advance is gated only on the one-square cell being empty.
pub open spec fn pawn_fwd(g: Seq<Piece>, x: int, y: int, p: Piece) -> Seq<Move> {
    let c = p.color as int;
    if on_board(x, y + c) && g[sq(x, y + c)].kind == Kind::Empty {
        seq![mk_move(p, x, y, g[sq(x, y + c)], x, y + c, false, promo_rank(y + c), false)] + (
        if y == pawn_start_rank(c) && on_board(x, y + 2 * c) {
            seq![mk_move(p, x, y, g[sq(x, y + 2 * c)], x, y + 2 * c, false, false, false)]
        } else {
            seq![]
        })
    } else {
        seq![]
    }
}

/// A diagonal pawn capture to file x+dx: only onto an enemy, non-empty
/// piece, promoting on the back rank.
pub open spec fn pawn_capture(g: Seq<Piece>, x: int, y: int, p: Piece, dx: int) -> Seq<Move> {
    let c = p.color as int;
    if on_board(x + dx, y + c) {
        let d = g[sq(x + dx, y + c)];
        if d.kind != Kind::Empty && d.color != p.color {
            seq![mk_move(p, x, y, d, x + dx, y + c, true, promo_rank(y + c), false)]
        } else {
            seq![]
        }
    } else {
        seq![]
    }
}

/// The exact move an enemy pawn must just have played — a two-square
/// advance landing on (x1, y) — for en passant onto file x1 to be open.
pub open spec fn ep_trigger(c: int, x1: int, y: int) -> Move {
    mk_move(
        Piece { kind: Kind::Pawn, color: (-c) as i32 },
        x1,
        y + 2 * c,
        empty_piece(),
        x1,
        y,
        false,
        false,
        false,
    )
}

/// An en-passant capture to file x+dx: the diagonal cell is empty and the
/// immediately preceding played move was the enabling two-square advance.
pub open spec fn pawn_ep(
    g: Seq<Piece>,
    hist: Seq<Move>,
    x: int,
    y: int,
    p: Piece,
    dx: int,
) -> Seq<Move> {
    let c = p.color as int;
    if on_board(x + dx, y + c) && g[sq(x + dx, y + c)].kind == Kind::Empty && hist.len() > 0
        && hist.last() == ep_trigger(c, x + dx, y) {
        seq![mk_move(p, x, y, g[sq(x + dx, y + c)], x + dx, y + c, false, false, true)]
    } else {
        seq![]
    }
}

/// All pawn moves, in the fixed order: forward (one, then two), capture
/// right, capture left, en passant left, en passant right.
pub open spec fn pawn_moves(g: Seq<Piece>, hist: Seq<Move>, x: int, y: int, p: Piece) -> Seq<
    Move,
> {
    pawn_fwd(g, x, y, p) + pawn_capture(g, x, y, p, 1) + pawn_capture(g, x, y, p, -1) + pawn_ep(
        g,
        hist,
        x,
        y,
        p,
        -1,
    ) + pawn_ep(g, hist, x, y, p, 1)
}

/// The moves contributed by the piece p standing at (x, y), dispatched by
/// its kind; a queen is the union of bishop and rook rays.
pub open spec fn cell_moves(g: Seq<Piece>, hist: Seq<Move>, x: int, y: int, p: Piece) -> Seq<
    Move,
> {
    match p.kind {
        Kind::Empty => seq![],
        Kind::Pawn => pawn_moves(g, hist, x, y, p),
        Kind::Knight => knight_moves(g, x, y, p),
        Kind::Bishop => bishop_moves(g, x, y, p),
        Kind::Rook => rook_moves(g, x, y, p),
        Kind::Queen => bishop_moves(g, x, y, p) + rook_moves(g, x, y, p),
        Kind::King => king_moves(g, x, y, p),
    }
}

/// The moves of all cells from index i on, in scan order; only cells held
/// by the side to move contribute.
pub open spec fn gen_from(s: BoardState, i: int) -> Seq<Move>
    decreases 64 - i,
{
    if i < 0 || i >= 64 {
        seq![]
    } else {
        (if s.grid[i].color == s.side {
            cell_moves(s.grid, s.history, i % 8, i / 8, s.grid[i])
        } else {
            seq![]
        }) + gen_from(s, i + 1)
    }
}

/// Every pseudo-legal move of the side to move, in scan order.
pub open spec fn gen_moves(s: BoardState) -> Seq<Move> {
    gen_from(s, 0)
}

/// Appends the move of one fixed offset, shared by the knight and king
/// generators.
fn try_step(b: &Board, x: i32, y: i32, piece: Piece, dx: i32, dy: i32, moves: &mut Vec<Move>)
    requires
        b.wf(),
        on_board(x as int, y as int),
        -2 <= dx <= 2,
        -2 <= dy <= 2,
    ensures
        final(moves)@ == old(moves)@ + step_moves(b@.grid, x as int, y as int, piece, dx as int, dy as int),
{
    if let Some(dest) = b.read(x + dx, y + dy) {
        if dest.color != piece.color {
            moves.push(
                Move {
                    p0: piece,
                    x0: x,
                    y0: y,
                    p1: dest,
                    x1: x + dx,
                    y1: y + dy,
                    capture: dest.color != 0,
                    promotion: false,
                    enpassant: false,
                    castle: false,
                },
            );
            return ;
        }
    }
    proof {
        assert(moves@ =~= moves@ + Seq::<Move>::empty());
    }
}

/// Appends the moves along one ray from (x, y), stepping by (dx, dy) until
/// a piece or the board edge stops it.
fn calc_ray(b: &Board, x: i32, y: i32, piece: Piece, dx: i32, dy: i32, moves: &mut Vec<Move>)
    requires
        b.wf(),
        on_board(x as int, y as int),
        -1 <= dx <= 1,
        -1 <= dy <= 1,
        -1 <= piece.color <= 1,
    ensures
        final(moves)@ == old(moves)@ + ray_moves(
            b@.grid,
            x as int,
            y as int,
            piece,
            dx as int,
            dy as int,
            1,
        ),
{
    let ghost g = b@.grid;
    let ghost xi = x as int;
    let ghost yi = y as int;
    let ghost dxi = dx as int;
    let ghost dyi = dy as int;
    let ghost base = moves@;
    let mut i: i32 = 1;
    while i < 8
        invariant_except_break
            b.wf(),
            g == b@.grid,
            xi == x as int,
            yi == y as int,
            dxi == dx as int,
            dyi == dy as int,
            on_board(xi, yi),
            -1 <= dx <= 1,
            -1 <= dy <= 1,
            -1 <= piece.color <= 1,
            1 <= i <= 8,
            base + ray_moves(g, xi, yi, piece, dxi, dyi, 1) =~= moves@ + ray_moves(
                g,
                xi,
                yi,
                piece,
                dxi,
                dyi,
                i as int,
            ),
        ensures
            moves@ =~= base + ray_moves(g, xi, yi, piece, dxi, dyi, 1),
        decreases 8 - i,
    {
        proof {
            assert(-8 <= dx as int * i as int <= 8 && -8 <= dy as int * i as int <= 8)
                by (nonlinear_arith)
                requires
                    -1 <= dx <= 1,
                    -1 <= dy <= 1,
                    1 <= i <= 8,
            ;
        }
        if let Some(dest) = b.read(x + dx * i, y + dy * i) {
            if dest.color != piece.color {
                moves.push(
                    Move {
                        p0: piece,
                        x0: x,
                        y0: y,
                        p1: dest,
                        x1: x + dx * i,
                        y1: y + dy * i,
                        capture: dest.color != 0,
                        promotion: false,
                        enpassant: false,
                        castle: false,
                    },
                );
                if dest.color == -piece.color {
                    // the ray does not pass a captured piece
                    break ;
                }
            } else {
                // a friendly piece stops the ray without a move
                break ;
            }
        } else {
            // the board edge stops the ray
            break ;
        }
        i += 1;
    }
}

/// Appends the bishop's moves: the four diagonal rays, up-right, up-left,
/// down-left, down-right.
pub fn calc_bishop(b: &Board, x: i32, y: i32, piece: Piece, moves: &mut Vec<Move>)
    requires
        b.wf(),
        on_board(x as int, y as int),
        -1 <= piece.color <= 1,
    ensures
        final(moves)@ == old(moves)@ + bishop_moves(b@.grid, x as int, y as int, piece),
{
    let ghost g = b@.grid;
    let ghost xi = x as int;
    let ghost yi = y as int;
    let ghost base = moves@;
    calc_ray(b, x, y, piece, 1, 1, moves);
    calc_ray(b, x, y, piece, -1, 1, moves);
    assert(moves@ =~= base + (ray_moves(g, xi, yi, piece, 1, 1, 1) + ray_moves(
        g,
        xi,
        yi,
        piece,
        -1,
        1,
        1,
    )));
    calc_ray(b, x, y, piece, -1, -1, moves);
    assert(moves@ =~= base + (ray_moves(g, xi, yi, piece, 1, 1, 1) + ray_moves(
        g,
        xi,
        yi,
        piece,
        -1,
        1,
        1,
    ) + ray_moves(g, xi, yi, piece, -1, -1, 1)));
    calc_ray(b, x, y, piece, 1, -1, moves);
    assert(moves@ =~= base + bishop_moves(g, xi, yi, piece));
}

/// Appends the rook's moves: the four orthogonal rays, up, left, down,
/// right.
pub fn calc_rook(b: &Board, x: i32, y: i32, piece: Piece, moves: &mut Vec<Move>)
    requires
        b.wf(),
        on_board(x as int, y as int),
        -1 <= piece.color <= 1,
    ensures
        final(moves)@ == old(moves)@ + rook_moves(b@.grid, x as int, y as int, piece),
{
    let ghost g = b@.grid;
    let ghost xi = x as int;
    let ghost yi = y as int;
    let ghost base = moves@;
    calc_ray(b, x, y, piece, 0, 1, moves);
    calc_ray(b, x, y, piece, -1, 0, moves);
    assert(moves@ =~= base + (ray_moves(g, xi, yi, piece, 0, 1, 1) + ray_moves(
        g,
        xi,
        yi,
        piece,
        -1,
        0,
        1,
    )));
    calc_ray(b, x, y, piece, 0, -1, moves);
    assert(moves@ =~= base + (ray_moves(g, xi, yi, piece, 0, 1, 1) + ray_moves(
        g,
        xi,
        yi,
        piece,
        -1,
        0,
        1,
    ) + ray_moves(g, xi, yi, piece, 0, -1, 1)));
    calc_ray(b, x, y, piece, 1, 0, moves);
    assert(moves@ =~= base + rook_moves(g, xi, yi, piece));
}

/// Appends the knight's moves from (x, y): each of the eight jump offsets
/// whose target is on the board and not a same-color piece.
/// The knight's jump offsets, as executable code.
fn knight_offset_at(k: usize) -> (r: (i32, i32))
    requires
        k < 8,
    ensures
        r.0 as int == knight_offset(k as int).0,
        r.1 as int == knight_offset(k as int).1,
{
    if k == 0 {
        (2, 1)
    } else if k == 1 {
        (2, -1)
    } else if k == 2 {
        (1, -2)
    } else if k == 3 {
        (-1, -2)
    } else if k == 4 {
        (-2, -1)
    } else if k == 5 {
        (-2, 1)
    } else if k == 6 {
        (-1, 2)
    } else {
        (1, 2)
    }
}

/// Appends the knight's moves from (x, y): each of the eight jump offsets
/// whose target is on the board and not a same-color piece.
pub fn calc_knight(b: &Board, x: i32, y: i32, piece: Piece, moves: &mut Vec<Move>)
    requires
        b.wf(),
        on_board(x as int, y as int),
    ensures
        final(moves)@ == old(moves)@ + knight_moves(b@.grid, x as int, y as int, piece),
{
    let ghost g = b@.grid;
    let ghost xi = x as int;
    let ghost yi = y as int;
    let ghost base = moves@;
    let mut k: usize = 0;
    while k < 8
        invariant
            b.wf(),
            on_board(xi, yi),
            g == b@.grid,
            xi == x as int,
            yi == y as int,
            k <= 8,
            moves@ + knight_steps(g, xi, yi, piece, k as int) =~= base + knight_moves(
                g,
                xi,
                yi,
                piece,
            ),
        decreases 8 - k,
    {
        let (dx, dy) = knight_offset_at(k);
        try_step(b, x, y, piece, dx, dy, moves);
        proof {
            assert(knight_steps(g, xi, yi, piece, k as int) == step_moves(
                g,
                xi,
                yi,
                piece,
                knight_offset(k as int).0,
                knight_offset(k as int).1,
            ) + knight_steps(g, xi, yi, piece, k as int + 1));
        }
        k += 1;
    }
    proof {
        assert(moves@ =~= moves@ + knight_steps(g, xi, yi, piece, 8));
    }
}

/// Appends the king's moves from (x, y): each adjacent cell not held by a
/// same-color piece.
pub fn calc_king(b: &Board, x: i32, y: i32, piece: Piece, moves: &mut Vec<Move>)
    requires
        b.wf(),
        on_board(x as int, y as int),
    ensures
        final(moves)@ == old(moves)@ + king_moves(b@.grid, x as int, y as int, piece),
{
    let ghost g = b@.grid;
    let ghost xi = x as int;
    let ghost yi = y as int;
    let ghost base = moves@;
    let mut k: usize = 0;
    while k < 9
        invariant
            b.wf(),
            on_board(xi, yi),
            g == b@.grid,
            xi == x as int,
            yi == y as int,
            k <= 9,
            moves@ + king_steps(g, xi, yi, piece, k as int) =~= base + king_moves(g, xi, yi, piece),
        decreases 9 - k,
    {
        let dx = (k / 3) as i32 - 1;
        let dy = (k % 3) as i32 - 1;
        try_step(b, x, y, piece, dx, dy, moves);
        proof {
            assert(king_steps(g, xi, yi, piece, k as int) == step_moves(
                g, xi, yi, piece, k as int / 3 - 1, k as int % 3 - 1) + king_steps(
                g, xi, yi, piece, k as int + 1));
        }
        k += 1;
    }
    proof {
        assert(moves@ =~= moves@ + king_steps(g, xi, yi, piece, 9));
    }
}

/// Appends the pawn's forward moves: one square onto an empty cell, and
/// two squares from the starting rank, gated only on the one-square cell
/// being empty.
fn calc_pawn_fwd(b: &Board, x: i32, y: i32, piece: Piece, moves: &mut Vec<Move>)
    requires
        b.wf(),
        on_board(x as int, y as int),
        piece.color == 1 || piece.color == -1,
    ensures
        final(moves)@ == old(moves)@ + pawn_fwd(b@.grid, x as int, y as int, piece),
{
    let color = piece.color;
    let is_last = y + color == 0 || y + color == 7;
    if let Some(dest) = b.read(x, y + color) {
        if dest.kind == Kind::Empty {
            moves.push(
                Move {
                    p0: piece,
                    x0: x,
                    y0: y,
                    p1: dest,
                    x1: x,
                    y1: y + color,
                    capture: false,
                    promotion: is_last,
                    enpassant: false,
                    castle: false,
                },
            );
            if (color == 1 && y == 1) || (color == -1 && y == 6) {
                if let Some(dest2) = b.read(x, y + color * 2) {
                    moves.push(
                        Move {
                            p0: piece,
                            x0: x,
                            y0: y,
                            p1: dest2,
                            x1: x,
                            y1: y + color * 2,
                            capture: false,
                            promotion: false,
                            enpassant: false,
                            castle: false,
                        },
                    );
                }
            }
        }
    }
    proof {
        assert(final(moves)@ =~= old(moves)@ + pawn_fwd(b@.grid, x as int, y as int, piece));
    }
}

/// Appends the pawn's diagonal capture towards file x+dx: only onto an
/// enemy, non-empty piece, promoting on the back rank.
fn calc_pawn_capture(b: &Board, x: i32, y: i32, piece: Piece, dx: i32, moves: &mut Vec<Move>)
    requires
        b.wf(),
        on_board(x as int, y as int),
        piece.color == 1 || piece.color == -1,
        dx == 1 || dx == -1,
    ensures
        final(moves)@ == old(moves)@ + pawn_capture(b@.grid, x as int, y as int, piece, dx as int),
{
    let color = piece.color;
    let is_last = y + color == 0 || y + color == 7;
    if let Some(dest) = b.read(x + dx, y + color) {
        if dest.kind != Kind::Empty && dest.color != color {
            moves.push(
                Move {
                    p0: piece,
                    x0: x,
                    y0: y,
                    p1: dest,
                    x1: x + dx,
                    y1: y + color,
                    capture: true,
                    promotion: is_last,
                    enpassant: false,
                    castle: false,
                },
            );
            return ;
        }
    }
    proof {
        assert(moves@ =~= moves@ + Seq::<Move>::empty());
    }
}

/// Appends the pawn's en-passant capture towards file x+dx: the diagonal
/// cell is empty and the immediately preceding played move was the enemy
/// pawn's enabling two-square advance.
fn calc_pawn_ep(b: &Board, x: i32, y: i32, piece: Piece, dx: i32, moves: &mut Vec<Move>)
    requires
        b.wf(),
        on_board(x as int, y as int),
        piece.color == 1 || piece.color == -1,
        dx == 1 || dx == -1,
    ensures
        final(moves)@ == old(moves)@ + pawn_ep(
            b@.grid,
            b@.history,
            x as int,
            y as int,
            piece,
            dx as int,
        ),
{
    let color = piece.color;
    if let Some(dest) = b.read(x + dx, y + color) {
        if dest.kind == Kind::Empty && b.history.len() != 0 {
            let played = b.history[b.history.len() - 1];
            let trigger = Move {
                p0: Piece { kind: Kind::Pawn, color: -color },
                x0: x + dx,
                y0: y + color * 2,
                p1: Piece { kind: Kind::Empty, color: 0 },
                x1: x + dx,
                y1: y,
                capture: false,
                promotion: false,
                enpassant: false,
                castle: false,
            };
            if played == trigger {
                moves.push(
                    Move {
                        p0: piece,
                        x0: x,
                        y0: y,
                        p1: dest,
                        x1: x + dx,
                        y1: y + color,
                        capture: false,
                        promotion: false,
                        enpassant: true,
                        castle: false,
                    },
                );
                return ;
            }
        }
    }
    proof {
        assert(moves@ =~= moves@ + Seq::<Move>::empty());
    }
}

/// Appends the pawn's moves from (x, y): forward (one, then two), capture
/// right, capture left, en passant left, en passant right.
pub fn calc_pawn(b: &Board, x: i32, y: i32, piece: Piece, moves: &mut Vec<Move>)
    requires
        b.wf(),
        on_board(x as int, y as int),
        piece.color == 1 || piece.color == -1,
    ensures
        final(moves)@ == old(moves)@ + pawn_moves(
            b@.grid,
            b@.history,
            x as int,
            y as int,
            piece,
        ),
{
    let ghost g = b@.grid;
    let ghost hist = b@.history;
    let ghost xi = x as int;
    let ghost yi = y as int;
    let ghost base = moves@;
    calc_pawn_fwd(b, x, y, piece, moves);
    calc_pawn_capture(b, x, y, piece, 1, moves);
    assert(moves@ =~= base + (pawn_fwd(g, xi, yi, piece) + pawn_capture(g, xi, yi, piece, 1)));
    calc_pawn_capture(b, x, y, piece, -1, moves);
    assert(moves@ =~= base + (pawn_fwd(g, xi, yi, piece) + pawn_capture(g, xi, yi, piece, 1)
        + pawn_capture(g, xi, yi, piece, -1)));
    calc_pawn_ep(b, x, y, piece, -1, moves);
    assert(moves@ =~= base + (pawn_fwd(g, xi, yi, piece) + pawn_capture(g, xi, yi, piece, 1)
        + pawn_capture(g, xi, yi, piece, -1) + pawn_ep(g, hist, xi, yi, piece, -1)));
    calc_pawn_ep(b, x, y, piece, 1, moves);
    assert(moves@ =~= base + pawn_moves(g, hist, xi, yi, piece));
}

impl Board {
    /// Generates every pseudo-legal move for the side to move, scanning the
    /// cells in index order and dispatching on the piece kind.
    pub fn calculate(&self) -> (r: Vec<Move>)
        requires
            self.wf(),
        ensures
            r@ == gen_moves(self@),
    {
        let mut moves: Vec<Move> = Vec::new();
        let mut i: usize = 0;
        while i < 64
            invariant
                self.wf(),
                i <= 64,
                moves@ + gen_from(self@, i as int) =~= gen_moves(self@),
            decreases 64 - i,
        {
            let piece = self.cells[i];
            let ghost pre = moves@;
            if piece.color == self.side {
                let x = (i % 8) as i32;
                let y = (i / 8) as i32;
                match piece.kind {
                    Kind::Empty => (),
                    Kind::Pawn => calc_pawn(self, x, y, piece, &mut moves),
                    Kind::Knight => calc_knight(self, x, y, piece, &mut moves),
                    Kind::Bishop => calc_bishop(self, x, y, piece, &mut moves),
                    Kind::Rook => calc_rook(self, x, y, piece, &mut moves),
                    Kind::Queen => {
                        calc_bishop(self, x, y, piece, &mut moves);
                        calc_rook(self, x, y, piece, &mut moves);
                    },
                    Kind::King => calc_king(self, x, y, piece, &mut moves),
                }
                proof {
                    assert(moves@ =~= pre + cell_moves(
                        self@.grid,
                        self@.history,
                        i as int % 8,
                        i as int / 8,
                        self@.grid[i as int],
                    ));
                }
            }
            proof {
                assert(gen_from(self@, i as int) == (if self@.grid[i as int].color == self@.side {
                    cell_moves(
                        self@.grid,
                        self@.history,
                        i as int % 8,
                        i as int / 8,
                        self@.grid[i as int],
                    )
                } else {
                    Seq::<Move>::empty()
                }) + gen_from(self@, i as int + 1));
                assert(moves@ + gen_from(self@, i as int + 1) =~= gen_moves(self@));
            }
            i += 1;
        }
        proof {
            assert(moves@ =~= moves@ + gen_from(self@, 64));
        }
        moves
    }
}

/// What the generator guarantees of each move it produces: the move
/// starts from (the given) cell (x, y) holding piece p, records the true
/// contents of its on-board destination, and does not stand still.
pub open spec fn from_cell(m: Move, g: Seq<Piece>, x: int, y: int, p: Piece) -> bool {
    &&& m.p0 == p
    &&& m.x0 as int == x
    &&& m.y0 as int == y
    &&& on_board(m.x1 as int, m.y1 as int)
    &&& m.p1 == g[sq(m.x1 as int, m.y1 as int)]
    &&& !(m.x1 as int == x && m.y1 as int == y)
}

/// A generated move is valid for the position it came from: both endpoints
/// are on the board and distinct, the move records the true contents of
/// both cells, and the moving piece belongs to the side to move and is not
/// an empty cell.
pub open spec fn move_ok(s: BoardState, m: Move) -> bool {
    &&& on_board(m.x0 as int, m.y0 as int)
    &&& on_board(m.x1 as int, m.y1 as int)
    &&& !(m.x0 == m.x1 && m.y0 == m.y1)
    &&& m.p0 == s.grid[sq(m.x0 as int, m.y0 as int)]
    &&& m.p1 == s.grid[sq(m.x1 as int, m.y1 as int)]
    &&& m.p0.color == s.side
    &&& m.p0.kind != Kind::Empty
}

/// All moves in ms come properly from the cell (x, y).
pub open spec fn all_from(ms: Seq<Move>, g: Seq<Piece>, x: int, y: int, p: Piece) -> bool {
    forall|k: int| 0 <= k < ms.len() ==> from_cell(#[trigger] ms[k], g, x, y, p)
}

proof fn lemma_step_from(g: Seq<Piece>, x: int, y: int, p: Piece, dx: int, dy: int)
    requires
        on_board(x, y),
        p == g[sq(x, y)],
    ensures
        all_from(step_moves(g, x, y, p, dx, dy), g, x, y, p),
{
}

proof fn lemma_ray_from(g: Seq<Piece>, x: int, y: int, p: Piece, dx: int, dy: int, i: int)
    requires
        on_board(x, y),
        !(dx == 0 && dy == 0),
        1 <= i,
    ensures
        all_from(ray_moves(g, x, y, p, dx, dy, i), g, x, y, p),
    decreases 8 - i,
{
    if 1 <= i < 8 {
        assert(dx != 0 ==> dx * i != 0) by (nonlinear_arith)
            requires 1 <= i;
        assert(dy != 0 ==> dy * i != 0) by (nonlinear_arith)
            requires 1 <= i;
        lemma_ray_from(g, x, y, p, dx, dy, i + 1);
    }
}

proof fn lemma_knight_steps_from(g: Seq<Piece>, x: int, y: int, p: Piece, k: int)
    requires
        on_board(x, y),
    ensures
        all_from(knight_steps(g, x, y, p, k), g, x, y, p),
    decreases 8 - k,
{
    if 0 <= k < 8 {
        lemma_knight_steps_from(g, x, y, p, k + 1);
    }
}

proof fn lemma_king_steps_from(g: Seq<Piece>, x: int, y: int, p: Piece, k: int)
    requires
        on_board(x, y),
        p == g[sq(x, y)],
    ensures
        all_from(king_steps(g, x, y, p, k), g, x, y, p),
    decreases 9 - k,
{
    if 0 <= k < 9 {
        lemma_step_from(g, x, y, p, k / 3 - 1, k % 3 - 1);
        lemma_king_steps_from(g, x, y, p, k + 1);
    }
}

proof fn lemma_pawn_from(g: Seq<Piece>, hist: Seq<Move>, x: int, y: int, p: Piece)
    requires
        on_board(x, y),
        p.color == 1 || p.color == -1,
    ensures
        all_from(pawn_moves(g, hist, x, y, p), g, x, y, p),
{
}

proof fn lemma_cell_from(g: Seq<Piece>, hist: Seq<Move>, x: int, y: int, p: Piece)
    requires
        on_board(x, y),
        p == g[sq(x, y)],
        p.color == 1 || p.color == -1,
    ensures
        all_from(cell_moves(g, hist, x, y, p), g, x, y, p),
{
    match p.kind {
        Kind::Empty => {},
        Kind::Pawn => lemma_pawn_from(g, hist, x, y, p),
        Kind::Knight => lemma_knight_steps_from(g, x, y, p, 0),
        Kind::Bishop => {
            lemma_ray_from(g, x, y, p, 1, 1, 1);
            lemma_ray_from(g, x, y, p, -1, 1, 1);
            lemma_ray_from(g, x, y, p, -1, -1, 1);
            lemma_ray_from(g, x, y, p, 1, -1, 1);
        },
        Kind::Rook => {
            lemma_ray_from(g, x, y, p, 0, 1, 1);
            lemma_ray_from(g, x, y, p, -1, 0, 1);
            lemma_ray_from(g, x, y, p, 0, -1, 1);
            lemma_ray_from(g, x, y, p, 1, 0, 1);
        },
        Kind::Queen => {
            lemma_ray_from(g, x, y, p, 1, 1, 1);
            lemma_ray_from(g, x, y, p, -1, 1, 1);
            lemma_ray_from(g, x, y, p, -1, -1, 1);
            lemma_ray_from(g, x, y, p, 1, -1, 1);
            lemma_ray_from(g, x, y, p, 0, 1, 1);
            lemma_ray_from(g, x, y, p, -1, 0, 1);
            lemma_ray_from(g, x, y, p, 0, -1, 1);
            lemma_ray_from(g, x, y, p, 1, 0, 1);
        },
        Kind::King => lemma_king_steps_from(g, x, y, p, 0),
    }
}

proof fn lemma_gen_from_ok(s: BoardState, i: int)
    requires
        state_wf(s),
        0 <= i,
    ensures
        forall|k: int|
            0 <= k < gen_from(s, i).len() ==> move_ok(s, #[trigger] gen_from(s, i)[k]),
    decreases 64 - i,
{
    if i < 64 {
        lemma_gen_from_ok(s, i + 1);
        let x = i % 8;
        let y = i / 8;
        let p = s.grid[i];
        let head = if p.color == s.side {
            cell_moves(s.grid, s.history, x, y, p)
        } else {
            Seq::<Move>::empty()
        };
        let tail = gen_from(s, i + 1);
        assert(i == 8 * (i / 8) + i % 8);
        assert(sq(x, y) == i);
        assert(piece_ok(p));
        if p.color == s.side {
            lemma_cell_from(s.grid, s.history, x, y, p);
        }
        assert(gen_from(s, i) == head + tail);
        assert forall|k: int| 0 <= k < gen_from(s, i).len() implies move_ok(
            s,
            #[trigger] gen_from(s, i)[k],
        ) by {
            if k < head.len() {
                assert(gen_from(s, i)[k] == head[k]);
                assert(from_cell(head[k], s.grid, x, y, p));
            } else {
                assert(gen_from(s, i)[k] == tail[k - head.len()]);
                assert(move_ok(s, tail[k - head.len()]));
            }
        }
    }
}

/// Every generated move is valid for the position it was generated from.
pub proof fn lemma_gen_moves_ok(s: BoardState)
    requires
        state_wf(s),
    ensures
        forall|k: int|
            0 <= k < gen_moves(s).len() ==> move_ok(s, #[trigger] gen_moves(s)[k]),
{
    lemma_gen_from_ok(s, 0);
}

/// A cell holding no piece, or a piece of the color not on turn,
/// contributes zero moves: no generated move originates there.
pub proof fn lemma_no_moves_from_inactive_cell(s: BoardState, x: int, y: int)
    requires
        state_wf(s),
        on_board(x, y),
        s.grid[sq(x, y)].kind == Kind::Empty || s.grid[sq(x, y)].color != s.side,
    ensures
        forall|k: int|
            0 <= k < gen_moves(s).len() ==> !((#[trigger] gen_moves(s)[k]).x0 as int == x
                && gen_moves(s)[k].y0 as int == y),
{
    lemma_gen_moves_ok(s);
    assert forall|k: int| 0 <= k < gen_moves(s).len() implies !((#[trigger] gen_moves(
        s,
    )[k]).x0 as int == x && gen_moves(s)[k].y0 as int == y) by {
        let m = gen_moves(s)[k];
        assert(move_ok(s, m));
        if m.x0 as int == x && m.y0 as int == y {
            assert(m.p0 == s.grid[sq(x, y)]);
            assert(piece_ok(m.p0));
        }
    }
}

} // verus!


