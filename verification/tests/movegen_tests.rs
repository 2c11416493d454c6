use chess_engine::apply::domove;
use chess_engine::board::initial_position;
use chess_engine::board::Board;
use chess_engine::board::Kind;
use chess_engine::board::Piece;

fn put(b: &mut Board, x: i32, y: i32, kind: Kind, color: i32) {
    b.write(x, y, Piece { kind, color });
}

#[test]
fn empty_board_has_no_moves() {
    let b = Board::empty();
    assert_eq!(b.calculate().len(), 0);
}

#[test]
fn off_turn_pieces_generate_no_moves() {
    // white to move, but the only piece is black: zero moves
    let mut b = Board::empty();
    put(&mut b, 3, 3, Kind::Rook, -1);
    put(&mut b, 5, 5, Kind::Queen, -1);
    assert_eq!(b.side, 1);
    assert_eq!(b.calculate().len(), 0);
    // black to move over the same board: the pieces move
    b.side = -1;
    assert!(b.calculate().len() > 0);
}

#[test]
fn knight_near_corner_is_truncated_to_the_board() {
    let mut b = Board::empty();
    put(&mut b, 1, 0, Kind::Knight, 1);
    let moves = b.calculate();
    let dests: Vec<(i32, i32)> = moves.iter().map(|m| (m.x1, m.y1)).collect();
    assert_eq!(dests, vec![(3, 1), (0, 2), (2, 2)]);
    for m in &moves {
        assert_eq!((m.x0, m.y0), (1, 0));
        assert!(!m.capture);
        assert!(!m.promotion);
        assert!(!m.enpassant);
        assert!(!m.castle);
    }
}

#[test]
fn knight_in_center_has_eight_moves() {
    let mut b = Board::empty();
    put(&mut b, 3, 3, Kind::Knight, 1);
    assert_eq!(b.calculate().len(), 8);
}

#[test]
fn rook_on_empty_board_has_fourteen_moves() {
    let mut b = Board::empty();
    put(&mut b, 3, 3, Kind::Rook, 1);
    let moves = b.calculate();
    let dests: Vec<(i32, i32)> = moves.iter().map(|m| (m.x1, m.y1)).collect();
    assert_eq!(
        dests,
        vec![
            // up
            (3, 4),
            (3, 5),
            (3, 6),
            (3, 7),
            // left
            (2, 3),
            (1, 3),
            (0, 3),
            // down
            (3, 2),
            (3, 1),
            (3, 0),
            // right
            (4, 3),
            (5, 3),
            (6, 3),
            (7, 3),
        ]
    );
    assert_eq!(moves.len(), 14);
    assert!(moves.iter().all(|m| !m.capture));
}

#[test]
fn enemy_piece_truncates_the_ray_with_a_capture() {
    let mut b = Board::empty();
    put(&mut b, 3, 3, Kind::Rook, 1);
    put(&mut b, 3, 6, Kind::Pawn, -1);
    let moves = b.calculate();
    assert_eq!(moves.len(), 13);
    let dests: Vec<(i32, i32)> = moves.iter().map(|m| (m.x1, m.y1)).collect();
    assert!(dests.contains(&(3, 6)));
    assert!(!dests.contains(&(3, 7)));
    let cap = moves.iter().find(|m| (m.x1, m.y1) == (3, 6)).unwrap();
    assert!(cap.capture);
    assert_eq!(cap.p1.kind, Kind::Pawn);
    assert_eq!(cap.p1.color, -1);
}

#[test]
fn friendly_piece_stops_the_ray_without_a_move() {
    let mut b = Board::empty();
    put(&mut b, 3, 3, Kind::Rook, 1);
    put(&mut b, 3, 5, Kind::Pawn, 1);
    let moves = b.calculate();
    let rook_moves: Vec<&chess_engine::board::Move> =
        moves.iter().filter(|m| m.p0.kind == Kind::Rook).collect();
    let dests: Vec<(i32, i32)> = rook_moves.iter().map(|m| (m.x1, m.y1)).collect();
    assert!(dests.contains(&(3, 4)));
    assert!(!dests.contains(&(3, 5)));
    assert!(!dests.contains(&(3, 6)));
}

#[test]
fn bishop_in_center_has_thirteen_moves() {
    let mut b = Board::empty();
    put(&mut b, 3, 3, Kind::Bishop, 1);
    assert_eq!(b.calculate().len(), 13);
}

#[test]
fn queen_is_bishop_plus_rook() {
    let mut b = Board::empty();
    put(&mut b, 3, 3, Kind::Queen, 1);
    assert_eq!(b.calculate().len(), 13 + 14);
}

#[test]
fn king_moves_to_adjacent_cells_only() {
    let mut b = Board::empty();
    put(&mut b, 3, 3, Kind::King, 1);
    assert_eq!(b.calculate().len(), 8);
    let mut c = Board::empty();
    put(&mut c, 0, 0, Kind::King, 1);
    let moves = c.calculate();
    let dests: Vec<(i32, i32)> = moves.iter().map(|m| (m.x1, m.y1)).collect();
    assert_eq!(dests, vec![(0, 1), (1, 0), (1, 1)]);
}

#[test]
fn pawn_single_and_double_advance_from_start() {
    let b = initial_position();
    let moves = b.calculate();
    // the a-file pawn may advance one or two squares
    let pawn_a: Vec<(i32, i32)> = moves
        .iter()
        .filter(|m| m.p0.kind == Kind::Pawn && m.x0 == 0)
        .map(|m| (m.x1, m.y1))
        .collect();
    assert_eq!(pawn_a, vec![(0, 2), (0, 3)]);
    // sixteen pawn moves and four knight moves in total
    assert_eq!(moves.len(), 20);
}

#[test]
fn pawn_double_advance_blocked_by_piece_ahead() {
    let mut b = Board::empty();
    put(&mut b, 4, 1, Kind::Pawn, 1);
    put(&mut b, 4, 2, Kind::Knight, -1);
    let pawn_moves: Vec<(i32, i32)> = b
        .calculate()
        .iter()
        .filter(|m| m.p0.kind == Kind::Pawn)
        .map(|m| (m.x1, m.y1))
        .collect();
    assert!(pawn_moves.is_empty());
}

#[test]
fn pawn_double_advance_is_gated_only_on_the_square_ahead() {
    // the square directly ahead is empty, so the two-square move is
    // offered even though its landing square is occupied; the landing
    // square's occupant is recorded and the move is not a capture
    let mut b = Board::empty();
    put(&mut b, 4, 1, Kind::Pawn, 1);
    put(&mut b, 4, 3, Kind::Knight, -1);
    let pawn_moves: Vec<chess_engine::board::Move> = b
        .calculate()
        .into_iter()
        .filter(|m| m.p0.kind == Kind::Pawn)
        .collect();
    assert_eq!(pawn_moves.len(), 2);
    assert_eq!((pawn_moves[0].x1, pawn_moves[0].y1), (4, 2));
    assert_eq!((pawn_moves[1].x1, pawn_moves[1].y1), (4, 3));
    assert!(!pawn_moves[1].capture);
    assert_eq!(pawn_moves[1].p1.kind, Kind::Knight);
}

#[test]
fn pawn_captures_diagonally_only_enemies() {
    let mut b = Board::empty();
    put(&mut b, 4, 4, Kind::Pawn, 1);
    put(&mut b, 5, 5, Kind::Rook, -1);
    put(&mut b, 3, 5, Kind::Rook, 1);
    let moves = b.calculate();
    let pawn_caps: Vec<(i32, i32)> = moves
        .iter()
        .filter(|m| m.p0.kind == Kind::Pawn && m.capture)
        .map(|m| (m.x1, m.y1))
        .collect();
    assert_eq!(pawn_caps, vec![(5, 5)]);
}

#[test]
fn pawn_promotes_on_the_back_rank() {
    let mut b = Board::empty();
    put(&mut b, 2, 6, Kind::Pawn, 1);
    let moves = b.calculate();
    assert_eq!(moves.len(), 1);
    assert_eq!((moves[0].x1, moves[0].y1), (2, 7));
    assert!(moves[0].promotion);
    let mut c = Board::empty();
    put(&mut c, 2, 1, Kind::Pawn, -1);
    c.side = -1;
    let cm = c.calculate();
    assert_eq!(cm.len(), 1);
    assert_eq!((cm[0].x1, cm[0].y1), (2, 0));
    assert!(cm[0].promotion);
}

#[test]
fn en_passant_opens_after_a_double_advance_beside_the_pawn() {
    let mut b = Board::empty();
    put(&mut b, 4, 4, Kind::Pawn, 1);
    put(&mut b, 3, 6, Kind::Pawn, -1);
    b.side = -1;
    // black plays the double advance landing beside the white pawn
    let black_moves = b.calculate();
    let double = black_moves
        .iter()
        .find(|m| (m.x1, m.y1) == (3, 4))
        .expect("double advance generated");
    let after = domove(&b, double);
    // now white's pawn may capture en passant onto the passed-over square
    let white_moves = after.calculate();
    let ep: Vec<&chess_engine::board::Move> =
        white_moves.iter().filter(|m| m.enpassant).collect();
    assert_eq!(ep.len(), 1);
    assert_eq!((ep[0].x1, ep[0].y1), (3, 5));
    assert!(!ep[0].capture);
}

#[test]
fn no_en_passant_without_the_enabling_previous_move() {
    let mut b = Board::empty();
    put(&mut b, 4, 4, Kind::Pawn, 1);
    put(&mut b, 3, 4, Kind::Pawn, -1);
    // same shape on the board, but no history: no en passant
    let moves = b.calculate();
    assert!(moves.iter().all(|m| !m.enpassant));
}
