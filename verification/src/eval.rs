//! Static material evaluation: the sum over all cells of the piece's
//! material value times its color sign, from white's absolute perspective.
//!
//! Values are in hundredths of a pawn so that they are exact integers:
//! pawn 100, knight 305, bishop 333, rook 563, queen 950, king 999900.

use vstd::prelude::*;

use crate::board::Board;
use crate::board::Kind;
use crate::board::Piece;
use crate::board::piece_ok;

verus! {

/// No score reaches this magnitude: 64 cells of at most a king each.
pub const EVAL_LIMIT: i64 = 63_993_600;

/// The material value of a piece kind, in hundredths of a pawn.
pub open spec fn material(k: Kind) -> int {
    match k {
        Kind::Empty => 0,
        Kind::Pawn => 100,
        Kind::Knight => 305,
        Kind::Bishop => 333,
        Kind::Rook => 563,
        Kind::Queen => 950,
        Kind::King => 999900,
    }
}

/// A piece's signed contribution to the score.
pub open spec fn piece_value(p: Piece) -> int {
    material(p.kind) * p.color
}

/// The summed value of the first n cells of the grid.
pub open spec fn eval_upto(g: Seq<Piece>, n: int) -> int
    decreases n,
{
    if n <= 0 {
        0
    } else {
        eval_upto(g, n - 1) + piece_value(g[n - 1])
    }
}

/// The material score of a grid, positive when white is ahead.
pub open spec fn eval_spec(g: Seq<Piece>) -> int {
    eval_upto(g, 64)
}

/// The partial sums stay within n cells' worth of kings.
pub proof fn lemma_eval_upto_bound(g: Seq<Piece>, n: int)
    requires
        0 <= n <= 64,
        n <= g.len(),
        forall|i: int| 0 <= i < g.len() ==> piece_ok(#[trigger] g[i]),
    ensures
        -n * 999900 <= eval_upto(g, n) <= n * 999900,
    decreases n,
{
    if n > 0 {
        lemma_eval_upto_bound(g, n - 1);
        assert(-999900 <= piece_value(g[n - 1]) <= 999900) by {
            assert(piece_ok(g[n - 1]));
        }
    }
}

/// The material value of a piece kind, as executable code.
pub fn material_value(k: Kind) -> (r: i64)
    ensures
        r == material(k),
{
    match k {
        Kind::Empty => 0,
        Kind::Pawn => 100,
        Kind::Knight => 305,
        Kind::Bishop => 333,
        Kind::Rook => 563,
        Kind::Queen => 950,
        Kind::King => 999900,
    }
}

impl Board {
    /// The static material score of the position: the sum over all 64 cells
    /// of `material(kind) * color`, positive when white is ahead. Purely
    /// material; no positional terms.
    pub fn evaluate(&self) -> (r: i64)
        requires
            self.wf(),
        ensures
            r == eval_spec(self@.grid),
            -EVAL_LIMIT <= r <= EVAL_LIMIT,
    {
        let mut sum: i64 = 0;
        let mut i: usize = 0;
        while i < 64
            invariant
                self.wf(),
                i <= 64,
                sum == eval_upto(self@.grid, i as int),
                -(i as i64) * 999900 <= sum <= (i as i64) * 999900,
            decreases 64 - i,
        {
            let p = self.cells[i];
            proof {
                assert(piece_ok(self@.grid[i as int]));
                assert(p.color == -1 || p.color == 0 || p.color == 1);
                assert(material(p.kind) * -1 == -material(p.kind));
                assert(material(p.kind) * 0 == 0);
                assert(material(p.kind) * 1 == material(p.kind));
                assert(-999900 <= piece_value(p) <= 999900);
            }
            sum = sum + material_value(p.kind) * (p.color as i64);
            i += 1;
        }
        sum
    }
}

} // verus!
