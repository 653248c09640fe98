use chess_board::{Board, BoardId, Color, Kind, Piece, Position};

fn at(x: i8, y: i8) -> Position {
    Position::new(x, y).unwrap()
}

#[test]
fn pieces_on_different_boards_compare_equal() {
    let first = Board::new_empty_with_id(BoardId(1));
    let second = Board::new_with_id(BoardId(2));
    let a = Piece::new(Kind::Bishop, Color::White, at(4, 4), &first);
    let b = Piece::new(Kind::Bishop, Color::White, at(4, 4), &second);
    assert_ne!(a.get_board(), b.get_board());
    assert!(a == b);
    assert_eq!(a, b);
}

#[test]
fn pieces_differ_when_kind_colour_or_square_differs() {
    let board = Board::new_empty();
    let piece = Piece::new(Kind::Bishop, Color::White, at(4, 4), &board);
    assert_ne!(piece, Piece::new(Kind::Rook, Color::White, at(4, 4), &board));
    assert_ne!(piece, Piece::new(Kind::Bishop, Color::Black, at(4, 4), &board));
    assert_ne!(piece, Piece::new(Kind::Bishop, Color::White, at(4, 5), &board));
    assert_ne!(piece, Piece::new(Kind::Bishop, Color::White, at(5, 4), &board));
    assert_eq!(piece, Piece::new(Kind::Bishop, Color::White, at(4, 4), &board));
}

#[test]
fn a_piece_remembers_the_board_it_was_made_for() {
    let board = Board::new_empty_with_id(BoardId(41));
    let piece = Piece::new(Kind::Queen, Color::Black, at(7, 4), &board);
    assert_eq!(piece.get_board(), BoardId(41));
    assert_eq!(piece.get_board(), board.handle());
    let other = Piece::new(Kind::Queen, Color::Black, at(7, 4), &Board::new_empty());
    assert_eq!(other.get_board(), BoardId(0));
}

#[test]
fn a_piece_outlives_its_board() {
    let piece = {
        let board = Board::new();
        Piece::new(Kind::Knight, Color::White, at(0, 1), &board)
    };
    assert_eq!(piece.get_kind(), Kind::Knight);
    assert_eq!(piece.get_position(), at(0, 1));
}

#[test]
fn colour_names_are_lower_case() {
    assert_eq!(Color::White.to_string(), "white");
    assert_eq!(Color::Black.to_string(), "black");
}

#[test]
fn kind_names_are_lower_case() {
    assert_eq!(Kind::King.to_string(), "king");
    assert_eq!(Kind::Queen.to_string(), "queen");
    assert_eq!(Kind::Knight.to_string(), "knight");
    assert_eq!(Kind::Bishop.to_string(), "bishop");
    assert_eq!(Kind::Rook.to_string(), "rook");
    assert_eq!(Kind::Pawn.to_string(), "pawn");
}

#[test]
fn sprite_names_join_colour_and_kind() {
    let board = Board::new_empty();
    let name = |kind, color| Piece::new(kind, color, at(0, 0), &board).sprite_name();
    assert_eq!(name(Kind::King, Color::White), "white_king.png");
    assert_eq!(name(Kind::Queen, Color::White), "white_queen.png");
    assert_eq!(name(Kind::Knight, Color::White), "white_knight.png");
    assert_eq!(name(Kind::Bishop, Color::White), "white_bishop.png");
    assert_eq!(name(Kind::Rook, Color::White), "white_rook.png");
    assert_eq!(name(Kind::Pawn, Color::White), "white_pawn.png");
    assert_eq!(name(Kind::King, Color::Black), "black_king.png");
    assert_eq!(name(Kind::Queen, Color::Black), "black_queen.png");
    assert_eq!(name(Kind::Knight, Color::Black), "black_knight.png");
    assert_eq!(name(Kind::Bishop, Color::Black), "black_bishop.png");
    assert_eq!(name(Kind::Rook, Color::Black), "black_rook.png");
    assert_eq!(name(Kind::Pawn, Color::Black), "black_pawn.png");
}
