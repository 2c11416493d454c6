use chess_engine::apply::domove;
use chess_engine::apply::undo;
use chess_engine::board::initial_position;
use chess_engine::board::Board;
use chess_engine::board::Kind;
use chess_engine::board::Move;
use chess_engine::board::Piece;
use chess_engine::root::choose_best_move;
use chess_engine::root::score_root_move;
use chess_engine::root::select_best;
use chess_engine::search::negamax;
use chess_engine::search::negamax_full;
use chess_engine::search::SCORE_INF;

fn put(b: &mut Board, x: i32, y: i32, kind: Kind, color: i32) {
    b.write(x, y, Piece { kind, color });
}

/// A small tactical middlegame-like position with captures available for
/// both sides.
fn tactical_position() -> Board {
    let mut b = Board::empty();
    put(&mut b, 4, 0, Kind::King, 1);
    put(&mut b, 3, 3, Kind::Queen, 1);
    put(&mut b, 2, 2, Kind::Knight, 1);
    put(&mut b, 1, 1, Kind::Pawn, 1);
    put(&mut b, 4, 7, Kind::King, -1);
    put(&mut b, 3, 6, Kind::Rook, -1);
    put(&mut b, 5, 5, Kind::Bishop, -1);
    put(&mut b, 6, 6, Kind::Pawn, -1);
    b
}

fn boards_equal(a: &Board, b: &Board) -> bool {
    if a.side != b.side || a.winner != b.winner || a.history.len() != b.history.len() {
        return false;
    }
    for x in 0..8 {
        for y in 0..8 {
            if a.read(x, y) != b.read(x, y) {
                return false;
            }
        }
    }
    true
}

#[test]
fn depth_zero_is_the_signed_static_evaluation() {
    let b = initial_position();
    assert_eq!(negamax(&b, 0, -SCORE_INF, SCORE_INF), 0);

    let mut w = Board::empty();
    put(&mut w, 0, 0, Kind::Rook, 1);
    put(&mut w, 7, 7, Kind::Knight, -1);
    // white to move: score from white's perspective
    assert_eq!(negamax(&w, 0, -SCORE_INF, SCORE_INF), 563 - 305);
    // black to move: the same material, seen from black's side
    w.side = -1;
    assert_eq!(negamax(&w, 0, -SCORE_INF, SCORE_INF), 305 - 563);
    // the window plays no role at depth zero
    assert_eq!(negamax(&w, 0, -7, 7), 305 - 563);
}

#[test]
fn alpha_beta_equals_full_width_from_the_initial_position() {
    let b = initial_position();
    for depth in 0..4 {
        assert_eq!(
            negamax(&b, depth, -SCORE_INF, SCORE_INF),
            negamax_full(&b, depth),
            "depth {depth}"
        );
    }
}

#[test]
fn alpha_beta_equals_full_width_on_sampled_positions() {
    let mut positions = vec![tactical_position()];
    let mut black_view = tactical_position();
    black_view.side = -1;
    positions.push(black_view);
    let mut sparse = Board::empty();
    put(&mut sparse, 0, 0, Kind::King, 1);
    put(&mut sparse, 7, 7, Kind::King, -1);
    put(&mut sparse, 4, 4, Kind::Pawn, 1);
    positions.push(sparse);
    for b in &positions {
        for depth in 0..4 {
            assert_eq!(
                negamax(b, depth, -SCORE_INF, SCORE_INF),
                negamax_full(b, depth),
                "depth {depth}"
            );
        }
    }
}

#[test]
fn capturing_the_king_ends_the_game() {
    let mut b = Board::empty();
    put(&mut b, 0, 0, Kind::Rook, 1);
    put(&mut b, 0, 7, Kind::King, -1);
    let moves = b.calculate();
    let cap = moves
        .iter()
        .find(|m| (m.x1, m.y1) == (0, 7))
        .expect("the rook can reach the king");
    assert!(cap.capture);
    let after = domove(&b, cap);
    assert_eq!(after.winner, 1);
    // the decided position is terminal: any depth returns its static score
    let leaf = (after.side as i64) * after.evaluate();
    assert_eq!(negamax(&after, 5, -SCORE_INF, SCORE_INF), leaf);
    assert_eq!(negamax_full(&after, 5), leaf);
}

#[test]
fn search_on_a_position_without_moves_scores_it_statically() {
    // white to move with no white piece on the board: zero moves
    let mut b = Board::empty();
    put(&mut b, 0, 7, Kind::King, -1);
    assert_eq!(b.calculate().len(), 0);
    let leaf = (b.side as i64) * b.evaluate();
    assert_eq!(negamax(&b, 3, -SCORE_INF, SCORE_INF), leaf);
    assert_eq!(negamax_full(&b, 3), leaf);
    assert_eq!(choose_best_move(&b, 3), None);
}

#[test]
fn apply_then_undo_restores_the_board() {
    // a promotion candidate next to an enemy rook: promoting and capturing
    // moves are both exercised
    let mut promo = Board::empty();
    put(&mut promo, 2, 6, Kind::Pawn, 1);
    put(&mut promo, 3, 7, Kind::Rook, -1);
    put(&mut promo, 4, 0, Kind::King, 1);
    put(&mut promo, 4, 7, Kind::King, -1);
    // an en-passant capture is available after black's double advance
    let mut ep = Board::empty();
    put(&mut ep, 4, 4, Kind::Pawn, 1);
    put(&mut ep, 3, 6, Kind::Pawn, -1);
    ep.side = -1;
    let double = ep
        .calculate()
        .into_iter()
        .find(|m| (m.x1, m.y1) == (3, 4))
        .expect("double advance generated");
    let ep_open = domove(&ep, &double);
    assert!(ep_open.calculate().iter().any(|m| m.enpassant));

    for b in [initial_position(), tactical_position(), promo, ep_open] {
        let moves = b.calculate();
        assert!(!moves.is_empty());
        for m in &moves {
            let applied = domove(&b, m);
            let restored = undo(&applied, m);
            assert!(boards_equal(&restored, &b));
        }
    }
}

#[test]
fn select_best_takes_the_first_greatest_value() {
    assert_eq!(select_best(&vec![3]), 0);
    assert_eq!(select_best(&vec![1, 5, 2]), 1);
    assert_eq!(select_best(&vec![1, 5, 5, 2]), 1);
    assert_eq!(select_best(&vec![-7, -7, -2, -2]), 2);
    assert_eq!(select_best(&vec![0, 0, 0]), 0);
}

#[test]
fn dispatcher_matches_a_serial_depth_one_reference() {
    let b = initial_position();
    let (best_move, best_score) = choose_best_move(&b, 1).expect("the opening has moves");

    // serial reference: for every root move, score every reply statically
    // and let the opponent pick its best; negate back to the root side
    let moves = b.calculate();
    let mut scores: Vec<i64> = Vec::new();
    for m in &moves {
        let child = domove(&b, m);
        let replies = child.calculate();
        let child_value = if child.winner != 0 || replies.is_empty() {
            (child.side as i64) * child.evaluate()
        } else {
            replies
                .iter()
                .map(|r| {
                    let leaf = domove(&child, r);
                    -((leaf.side as i64) * leaf.evaluate())
                })
                .max()
                .unwrap()
        };
        scores.push(-child_value);
    }
    let mut best = 0;
    for i in 0..scores.len() {
        if scores[i] > scores[best] {
            best = i;
        }
    }
    assert_eq!(best_move, moves[best]);
    assert_eq!(best_score, scores[best]);
}

#[test]
fn dispatcher_prefers_the_material_winning_move() {
    // the white rook can take an undefended pawn; every other move is quiet
    let mut b = Board::empty();
    put(&mut b, 0, 0, Kind::Rook, 1);
    put(&mut b, 4, 0, Kind::King, 1);
    put(&mut b, 0, 5, Kind::Pawn, -1);
    put(&mut b, 7, 7, Kind::King, -1);
    let (best_move, best_score) = choose_best_move(&b, 1).expect("moves exist");
    assert_eq!(best_move.p0.kind, Kind::Rook);
    assert_eq!((best_move.x1, best_move.y1), (0, 5));
    assert!(best_move.capture);
    assert_eq!(best_score, 563);
}

#[test]
fn score_root_move_accepts_exactly_the_position_moves() {
    let b = initial_position();
    let moves = b.calculate();
    for m in &moves {
        let scored = score_root_move(&b, m, 1).expect("a generated move is scored");
        let child = domove(&b, m);
        assert_eq!(scored, -negamax(&child, 1, -SCORE_INF, SCORE_INF));
    }
    // a move that is not one of this position's is rejected
    let bogus = Move {
        p0: Piece { kind: Kind::Rook, color: 1 },
        x0: 3,
        y0: 3,
        p1: Piece { kind: Kind::Empty, color: 0 },
        x1: 3,
        y1: 5,
        capture: false,
        promotion: false,
        enpassant: false,
        castle: false,
    };
    assert_eq!(score_root_move(&b, &bogus, 1), None);
    let off_board = Move { x1: 9, ..bogus };
    assert_eq!(score_root_move(&b, &off_board, 1), None);
}

#[test]
fn parallel_style_scoring_agrees_with_the_dispatcher() {
    // gather per-move scores the way a worker pool would, then reduce
    let b = tactical_position();
    let moves = b.calculate();
    let mut values: Vec<i64> = Vec::new();
    for m in &moves {
        values.push(score_root_move(&b, m, 2).expect("generated move"));
    }
    let k = select_best(&values);
    let (best_move, best_score) = choose_best_move(&b, 2).expect("moves exist");
    assert_eq!(best_move, moves[k]);
    assert_eq!(best_score, values[k]);
}
