use chess_board::{Board, Color, Kind, OutOfBounds, Piece, Position};

#[test]
fn piece_creation() {
    let pawn = Piece::new(
        Kind::Pawn,
        Color::Black,
        Position::new(2, 3).unwrap(),
        &Board::new_empty(),
    );
    assert_eq!(pawn.get_kind(), Kind::Pawn);
    assert_eq!(pawn.get_color(), Color::Black);
    assert_eq!(pawn.get_position(), Position::new(2, 3).unwrap());
    assert_eq!(pawn.get_position().x(), 2);
    assert_eq!(pawn.get_position().y(), 3);

    let king = Piece::new(
        Kind::King,
        Color::White,
        Position::new(0, 7).unwrap(),
        &Board::new_empty(),
    );
    assert_eq!(king.get_kind(), Kind::King);
    assert_eq!(king.get_color(), Color::White);
    assert_eq!(king.get_position(), Position::new(0, 7).unwrap());
    assert_eq!(king.get_position().x(), 0);
    assert_eq!(king.get_position().y(), 7);
}

#[test]
#[should_panic]
fn outside_board_creation() {
    Piece::new(
        Kind::Pawn,
        Color::White,
        Position::new(8, 1).unwrap(),
        &Board::new_empty(),
    );
}

#[test]
fn outside_board_creation_reports_the_coordinates() {
    assert_eq!(Position::new(8, 1), Err(OutOfBounds { x: 8, y: 1 }));
    assert_eq!(Position::new(1, 8), Err(OutOfBounds { x: 1, y: 8 }));
    assert_eq!(Position::new(-1, 0), Err(OutOfBounds { x: -1, y: 0 }));
    assert_eq!(Position::new(0, -1), Err(OutOfBounds { x: 0, y: -1 }));
    assert_eq!(Position::new(i8::MIN, i8::MAX), Err(OutOfBounds { x: i8::MIN, y: i8::MAX }));
}

#[test]
fn every_square_is_accepted_and_reads_back() {
    for x in 0..=7i8 {
        for y in 0..=7i8 {
            let position = Position::new(x, y).unwrap();
            assert_eq!(position.x(), x);
            assert_eq!(position.y(), y);
        }
    }
}

#[test]
fn every_pair_off_the_board_is_refused() {
    for x in i8::MIN..=i8::MAX {
        for y in i8::MIN..=i8::MAX {
            let inside = (0..=7).contains(&x) && (0..=7).contains(&y);
            let made = Position::new(x, y);
            assert_eq!(made.is_ok(), inside);
            assert_eq!(Position::is_valid(x, y), inside);
            if !inside {
                assert_eq!(made, Err(OutOfBounds { x, y }));
            }
        }
    }
}

#[test]
fn corners_are_valid_and_their_neighbours_outside_are_not() {
    assert!(Position::is_valid(0, 0));
    assert!(Position::is_valid(7, 7));
    assert!(Position::is_valid(0, 7));
    assert!(Position::is_valid(7, 0));
    assert!(!Position::is_valid(-1, 0));
    assert!(!Position::is_valid(0, 8));
    assert!(!Position::is_valid(8, 8));
}

#[test]
fn positions_compare_by_coordinates() {
    assert_eq!(Position::new(4, 5).unwrap(), Position::new(4, 5).unwrap());
    assert_ne!(Position::new(4, 5).unwrap(), Position::new(5, 4).unwrap());
}
