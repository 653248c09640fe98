use chess_board::{Board, BoardId, Color, Kind, Piece, Position};

fn at(x: i8, y: i8) -> Position {
    Position::new(x, y).unwrap()
}

fn count(pieces: &[Piece], color: Color, kind: Kind) -> usize {
    pieces.iter().filter(|p| p.get_color() == color && p.get_kind() == kind).count()
}

#[test]
fn new_board_holds_the_standard_census() {
    let board = Board::new();
    let pieces = board.get_pieces();
    assert_eq!(pieces.len(), 32);
    for color in [Color::White, Color::Black] {
        assert_eq!(pieces.iter().filter(|p| p.get_color() == color).count(), 16);
        assert_eq!(count(pieces, color, Kind::Pawn), 8);
        assert_eq!(count(pieces, color, Kind::Rook), 2);
        assert_eq!(count(pieces, color, Kind::Knight), 2);
        assert_eq!(count(pieces, color, Kind::Bishop), 2);
        assert_eq!(count(pieces, color, Kind::Queen), 1);
        assert_eq!(count(pieces, color, Kind::King), 1);
    }
}

#[test]
fn new_board_has_one_table_entry_per_piece() {
    let board = Board::new();
    assert_eq!(board.indexed_squares(), 32);
    let pieces = board.get_pieces();
    for (i, a) in pieces.iter().enumerate() {
        for b in &pieces[i + 1..] {
            assert_ne!(a.get_position(), b.get_position());
        }
    }
}

#[test]
fn new_board_lists_white_then_black_pawns_first_then_home_rank_by_file() {
    let board = Board::new();
    let home = [
        Kind::Rook,
        Kind::Knight,
        Kind::Bishop,
        Kind::Queen,
        Kind::King,
        Kind::Bishop,
        Kind::Knight,
        Kind::Rook,
    ];
    let mut expected = Vec::new();
    for file in 0..8i8 {
        expected.push((Kind::Pawn, Color::White, at(1, file)));
    }
    for file in 0..8i8 {
        expected.push((home[file as usize], Color::White, at(0, file)));
    }
    for file in 0..8i8 {
        expected.push((Kind::Pawn, Color::Black, at(6, file)));
    }
    for file in 0..8i8 {
        expected.push((home[7 - file as usize], Color::Black, at(7, file)));
    }
    let found: Vec<(Kind, Color, Position)> = board
        .get_pieces()
        .iter()
        .map(|p| (p.get_kind(), p.get_color(), p.get_position()))
        .collect();
    assert_eq!(found, expected);
}

#[test]
fn queens_and_kings_start_on_their_squares() {
    let board = Board::new();
    let white_queen = board.piece_at(at(0, 3)).unwrap();
    let white_king = board.piece_at(at(0, 4)).unwrap();
    let black_queen = board.piece_at(at(7, 4)).unwrap();
    let black_king = board.piece_at(at(7, 3)).unwrap();
    assert_eq!((white_queen.get_kind(), white_queen.get_color()), (Kind::Queen, Color::White));
    assert_eq!((white_king.get_kind(), white_king.get_color()), (Kind::King, Color::White));
    assert_eq!((black_queen.get_kind(), black_queen.get_color()), (Kind::Queen, Color::Black));
    assert_eq!((black_king.get_kind(), black_king.get_color()), (Kind::King, Color::Black));
}

#[test]
fn lookup_finds_every_piece_on_its_square() {
    let board = Board::new();
    for piece in board.get_pieces() {
        let found = board.piece_at(piece.get_position()).unwrap();
        assert_eq!(found, *piece);
        assert_eq!(found.get_position(), piece.get_position());
    }
}

#[test]
fn lookup_finds_nothing_on_the_middle_ranks() {
    let board = Board::new();
    for x in 2..=5i8 {
        for y in 0..=7i8 {
            assert!(board.piece_at(at(x, y)).is_none());
        }
    }
    for x in [0i8, 1, 6, 7] {
        for y in 0..=7i8 {
            assert!(board.piece_at(at(x, y)).is_some());
        }
    }
}

#[test]
fn empty_board_has_no_piece_and_no_table_entry() {
    let board = Board::new_empty();
    assert!(board.get_pieces().is_empty());
    assert_eq!(board.indexed_squares(), 0);
    for x in 0..=7i8 {
        for y in 0..=7i8 {
            assert!(board.piece_at(at(x, y)).is_none());
        }
    }
}

#[test]
fn boards_are_named_as_asked() {
    assert_eq!(Board::new().handle(), BoardId(0));
    assert_eq!(Board::new_empty().handle(), BoardId(0));
    assert_eq!(Board::new_with_id(BoardId(7)).handle(), BoardId(7));
    assert_eq!(Board::new_empty_with_id(BoardId(u64::MAX)).handle(), BoardId(u64::MAX));
}

#[test]
fn every_piece_refers_back_to_its_board() {
    let board = Board::new_with_id(BoardId(12));
    assert_eq!(board.get_pieces().len(), 32);
    for piece in board.get_pieces() {
        assert_eq!(piece.get_board(), BoardId(12));
    }
    for piece in Board::new().get_pieces() {
        assert_eq!(piece.get_board(), BoardId(0));
    }
}

#[test]
fn boards_with_different_names_hold_equal_pieces() {
    let first = Board::new_with_id(BoardId(1));
    let second = Board::new_with_id(BoardId(2));
    assert_eq!(first.get_pieces(), second.get_pieces());
}
