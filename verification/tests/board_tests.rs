use chess_engine::board::initial_position;
use chess_engine::board::Board;
use chess_engine::board::Kind;
use chess_engine::board::Piece;

#[test]
fn read_returns_value_exactly_on_board() {
    let b = initial_position();
    for x in 0..8 {
        for y in 0..8 {
            assert!(b.read(x, y).is_some());
        }
    }
    assert!(b.read(-1, 0).is_none());
    assert!(b.read(8, 0).is_none());
    assert!(b.read(0, -1).is_none());
    assert!(b.read(0, 8).is_none());
    assert!(b.read(-3, 11).is_none());
    assert!(b.read(100, 100).is_none());
}

#[test]
fn initial_position_layout() {
    let b = initial_position();
    assert_eq!(b.side, 1);
    assert_eq!(b.winner, 0);
    assert!(b.history.is_empty());
    let back = [
        Kind::Rook,
        Kind::Knight,
        Kind::Bishop,
        Kind::Queen,
        Kind::King,
        Kind::Bishop,
        Kind::Knight,
        Kind::Rook,
    ];
    for x in 0..8 {
        let w = b.read(x, 0).unwrap();
        assert_eq!(w.kind, back[x as usize]);
        assert_eq!(w.color, 1);
        let wp = b.read(x, 1).unwrap();
        assert_eq!(wp.kind, Kind::Pawn);
        assert_eq!(wp.color, 1);
        let bp = b.read(x, 6).unwrap();
        assert_eq!(bp.kind, Kind::Pawn);
        assert_eq!(bp.color, -1);
        let bk = b.read(x, 7).unwrap();
        assert_eq!(bk.kind, back[x as usize]);
        assert_eq!(bk.color, -1);
        for y in 2..6 {
            let e = b.read(x, y).unwrap();
            assert_eq!(e.kind, Kind::Empty);
            assert_eq!(e.color, 0);
        }
    }
}

#[test]
fn write_changes_only_the_addressed_cell() {
    let mut b = Board::empty();
    b.write(2, 5, Piece { kind: Kind::Queen, color: -1 });
    let q = b.read(2, 5).unwrap();
    assert_eq!(q.kind, Kind::Queen);
    assert_eq!(q.color, -1);
    for x in 0..8 {
        for y in 0..8 {
            if (x, y) != (2, 5) {
                assert_eq!(b.read(x, y).unwrap().kind, Kind::Empty);
            }
        }
    }
}

#[test]
fn evaluate_initial_is_zero() {
    let b = initial_position();
    assert_eq!(b.evaluate(), 0);
}

#[test]
fn evaluate_counts_material_exactly() {
    let mut b = Board::empty();
    assert_eq!(b.evaluate(), 0);
    b.write(0, 0, Piece { kind: Kind::Rook, color: 1 });
    assert_eq!(b.evaluate(), 563);
    b.write(5, 5, Piece { kind: Kind::Knight, color: -1 });
    assert_eq!(b.evaluate(), 563 - 305);
    b.write(2, 2, Piece { kind: Kind::Pawn, color: 1 });
    b.write(3, 3, Piece { kind: Kind::Bishop, color: 1 });
    b.write(4, 4, Piece { kind: Kind::Queen, color: -1 });
    b.write(6, 6, Piece { kind: Kind::King, color: -1 });
    assert_eq!(b.evaluate(), 563 - 305 + 100 + 333 - 950 - 999900);
}
