//! The board model: pieces, moves, the 64-cell grid, and the standard
//! starting position.

use vstd::prelude::*;

verus! {

/// White moves up the board (+1), black moves down (-1).
pub const WHITE: i32 = 1;
/// Black's color sign.
pub const BLACK: i32 = -1;

/// The kind of a piece. `Empty` marks a vacant cell and always pairs with
/// color 0.
#[derive(Clone, Copy, Debug, PartialEq, Eq, Structural)]
pub enum Kind {
    Empty,
    Pawn,
    Knight,
    Bishop,
    Rook,
    Queen,
    King,
}

/// A piece: its kind and its color sign (+1 white, -1 black, 0 none).
#[derive(Clone, Copy, Debug, PartialEq, Eq, Structural)]
pub struct Piece {
    pub kind: Kind,
    pub color: i32,
}

/// A move is a self-describing value: it carries the moving piece, both
/// endpoints, and the piece previously occupying the destination, which lets
/// a move be undone without consulting the board.
#[derive(Clone, Copy, Debug, PartialEq, Eq, Structural)]
pub struct Move {
    /// The moving piece.
    pub p0: Piece,
    pub x0: i32,
    pub y0: i32,
    /// What stood on the destination cell before the move.
    pub p1: Piece,
    pub x1: i32,
    pub y1: i32,
    pub capture: bool,
    pub promotion: bool,
    pub enpassant: bool,
    /// Reserved: no generator produces castling moves.
    pub castle: bool,
}

/// The mathematical value of a board: the grid as a sequence of 64 pieces,
/// the side to move, the moves already played, and the winner sign (0 while
/// the game is undecided).
#[verifier::ext_equal]
pub ghost struct BoardState {
    pub grid: Seq<Piece>,
    pub side: int,
    pub history: Seq<Move>,
    pub winner: int,
}

/// The board: side to move, 64 cells indexed by `y*8 + x`, the history of
/// played moves (consulted for en-passant detection), and the winner sign
/// set when a king is captured.
pub struct Board {
    pub side: i32,
    pub cells: Vec<Piece>,
    pub history: Vec<Move>,
    pub winner: i32,
}

/// The cell index of coordinate (x, y).
pub open spec fn sq(x: int, y: int) -> int {
    y * 8 + x
}

/// Whether (x, y) lies on the 8x8 board.
pub open spec fn on_board(x: int, y: int) -> bool {
    0 <= x < 8 && 0 <= y < 8
}

/// A vacant cell.
pub open spec fn empty_piece() -> Piece {
    Piece { kind: Kind::Empty, color: 0 }
}

/// A piece is well formed when its color is a sign and the `Empty` kind
/// pairs exactly with color 0.
pub open spec fn piece_ok(p: Piece) -> bool {
    &&& -1 <= p.color <= 1
    &&& (p.kind == Kind::Empty <==> p.color == 0)
}

/// A well-formed board state: 64 well-formed cells and a side to move that
/// is one of the two players.
pub open spec fn state_wf(s: BoardState) -> bool {
    &&& s.grid.len() == 64
    &&& s.side == 1 || s.side == -1
    &&& forall|i: int| 0 <= i < 64 ==> piece_ok(#[trigger] s.grid[i])
}

/// What `read` returns: the piece at (x, y), or nothing off the board.
pub open spec fn read_spec(g: Seq<Piece>, x: int, y: int) -> Option<Piece> {
    if on_board(x, y) {
        Some(g[sq(x, y)])
    } else {
        None
    }
}

impl View for Board {
    type V = BoardState;

    open spec fn view(&self) -> BoardState {
        BoardState {
            grid: self.cells@,
            side: self.side as int,
            history: self.history@,
            winner: self.winner as int,
        }
    }
}

impl Board {
    /// The board's invariant.
    pub open spec fn wf(&self) -> bool {
        state_wf(self@)
    }

    /// Returns the piece at (x, y), or `None` for any coordinate outside
    /// the board; generators rely on this sentinel to stop at the edges.
    pub fn read(&self, x: i32, y: i32) -> (r: Option<Piece>)
        requires
            self.wf(),
        ensures
            r == read_spec(self@.grid, x as int, y as int),
    {
        if x > 7 || x < 0 || y > 7 || y < 0 {
            return None;
        }
        Some(self.cells[(y * 8 + x) as usize])
    }

    /// Unconditional cell assignment; used during setup and move
    /// application. Only the addressed cell changes.
    pub fn write(&mut self, x: i32, y: i32, p: Piece)
        requires
            old(self).wf(),
            on_board(x as int, y as int),
            piece_ok(p),
        ensures
            final(self).wf(),
            final(self)@.grid == old(self)@.grid.update(sq(x as int, y as int), p),
            final(self)@.side == old(self)@.side,
            final(self)@.history == old(self)@.history,
            final(self)@.winner == old(self)@.winner,
    {
        let i = (y * 8 + x) as usize;
        self.cells.set(i, p);
    }

    /// A board of 64 vacant cells with white to move, no history, and no
    /// winner.
    pub fn empty() -> (r: Board)
        ensures
            r.wf(),
            r@.side == 1,
            r@.history == Seq::<Move>::empty(),
            r@.winner == 0,
            forall|i: int| 0 <= i < 64 ==> #[trigger] r@.grid[i] == empty_piece(),
    {
        let mut cells: Vec<Piece> = Vec::new();
        let mut i: usize = 0;
        while i < 64
            invariant
                i <= 64,
                cells@.len() == i,
                forall|j: int| 0 <= j < i ==> #[trigger] cells@[j] == empty_piece(),
            decreases 64 - i,
        {
            cells.push(Piece { kind: Kind::Empty, color: 0 });
            i += 1;
        }
        Board { side: WHITE, cells, history: Vec::new(), winner: 0 }
    }
}

/// The piece standing at (x, y) in the standard starting layout: white's
/// back rank on rank 0, white pawns on rank 1, black mirrored on ranks 7
/// and 6.
pub open spec fn initial_piece(x: int, y: int) -> Piece {
    if y == 0 {
        Piece { kind: back_rank_kind(x), color: WHITE }
    } else if y == 1 {
        Piece { kind: Kind::Pawn, color: WHITE }
    } else if y == 6 {
        Piece { kind: Kind::Pawn, color: BLACK }
    } else if y == 7 {
        Piece { kind: back_rank_kind(x), color: BLACK }
    } else {
        empty_piece()
    }
}

/// The kind on file x of a back rank.
pub open spec fn back_rank_kind(x: int) -> Kind {
    if x == 0 || x == 7 {
        Kind::Rook
    } else if x == 1 || x == 6 {
        Kind::Knight
    } else if x == 2 || x == 5 {
        Kind::Bishop
    } else if x == 3 {
        Kind::Queen
    } else {
        Kind::King
    }
}

/// The kind on file x of a back rank, as executable code.
fn back_rank(x: i32) -> (k: Kind)
    requires
        0 <= x < 8,
    ensures
        k == back_rank_kind(x as int),
{
    if x == 0 || x == 7 {
        Kind::Rook
    } else if x == 1 || x == 6 {
        Kind::Knight
    } else if x == 2 || x == 5 {
        Kind::Bishop
    } else if x == 3 {
        Kind::Queen
    } else {
        Kind::King
    }
}

/// The standard chess starting position, white to move.
pub fn initial_position() -> (r: Board)
    ensures
        r.wf(),
        r@.side == 1,
        r@.history == Seq::<Move>::empty(),
        r@.winner == 0,
        forall|x: int, y: int|
            on_board(x, y) ==> #[trigger] r@.grid[sq(x, y)] == initial_piece(x, y),
{
    let mut b = Board::empty();
    let mut x: i32 = 0;
    while x < 8
        invariant
            0 <= x <= 8,
            b.wf(),
            b@.side == 1,
            b@.history == Seq::<Move>::empty(),
            b@.winner == 0,
            forall|i: int, j: int|
                on_board(i, j) && (j >= 2 || i >= x) ==> #[trigger] b@.grid[sq(i, j)]
                    == empty_piece(),
            forall|i: int, j: int|
                on_board(i, j) && j <= 1 && i < x ==> #[trigger] b@.grid[sq(i, j)]
                    == initial_piece(i, j),
        decreases 8 - x,
    {
        b.write(x, 0, Piece { kind: back_rank(x), color: WHITE });
        b.write(x, 1, Piece { kind: Kind::Pawn, color: WHITE });
        x += 1;
    }
    let mut x: i32 = 0;
    while x < 8
        invariant
            0 <= x <= 8,
            b.wf(),
            b@.side == 1,
            b@.history == Seq::<Move>::empty(),
            b@.winner == 0,
            forall|i: int, j: int|
                on_board(i, j) && j <= 1 ==> #[trigger] b@.grid[sq(i, j)] == initial_piece(i, j),
            forall|i: int, j: int|
                on_board(i, j) && 2 <= j <= 5 ==> #[trigger] b@.grid[sq(i, j)] == empty_piece(),
            forall|i: int, j: int|
                on_board(i, j) && j >= 6 && i >= x ==> #[trigger] b@.grid[sq(i, j)]
                    == empty_piece(),
            forall|i: int, j: int|
                on_board(i, j) && j >= 6 && i < x ==> #[trigger] b@.grid[sq(i, j)]
                    == initial_piece(i, j),
        decreases 8 - x,
    {
        b.write(x, 7, Piece { kind: back_rank(x), color: BLACK });
        b.write(x, 6, Piece { kind: Kind::Pawn, color: BLACK });
        x += 1;
    }
    b
}

} // verus!
