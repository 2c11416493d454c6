//! A small chess engine: an 8x8 board of typed pieces, pseudo-legal move
//! generation per piece kind, a static material evaluation, and a fixed-depth
//! negamax search with alpha-beta pruning, topped by a root dispatcher that
//! picks the best move.
//!
//! Scores are exact integers in hundredths of a pawn, so that evaluation and
//! search are free of rounding. Colors are signed integers (+1 white,
//! -1 black, 0 none), which drives pawn direction and promotion-rank
//! arithmetic algebraically.

pub mod apply;
pub mod board;
pub mod eval;
pub mod movegen;
pub mod root;
pub mod search;

pub use board::initial_position;
pub use board::Board;
pub use board::Kind;
pub use board::Move;
pub use board::Piece;
pub use root::choose_best_move;
