//! The board: its pieces in setup order and the table that finds them by
//! square.

use crate::index::{index_entries, index_get, index_insert, index_len, index_new, no_entries, PositionIndex};
use crate::piece::{Color, Kind, Piece, PieceView};
use crate::position::Position;
use vstd::prelude::*;

verus! {

/// Names a board without owning it. A piece carries the identifier of the
/// board it was made for.
#[derive(Debug, Clone, Copy, Hash, PartialEq, Eq, Structural)]
pub struct BoardId(pub u64);

/// A chess board.
///
/// The board owns its pieces and a table that maps a square to the slot of
/// the piece standing there. The table never lies: a square it knows leads to
/// a piece on that square. Whether it knows every piece is a separate
/// question, answered by [`Board::indexed`].
#[derive(Debug)]
pub struct Board {
    id: BoardId,
    pieces: Vec<Piece>,
    pieces_map: PositionIndex,
}

/// The table key of a square.
pub open spec fn key_of(square: (int, int)) -> (i8, i8) {
    (square.0 as i8, square.1 as i8)
}

/// The rank a side's pawns start on.
pub open spec fn pawn_rank(color: Color) -> int {
    match color {
        Color::White => 1,
        Color::Black => 6,
    }
}

/// The rank a side's other pieces start on.
pub open spec fn home_rank(color: Color) -> int {
    match color {
        Color::White => 0,
        Color::Black => 7,
    }
}

/// The piece that starts on a given file of a side's home rank. The two
/// sides mirror each other but for queen and king, which trade files.
pub open spec fn home_kind(color: Color, file: int) -> Kind {
    if file == 0 || file == 7 {
        Kind::Rook
    } else if file == 1 || file == 6 {
        Kind::Knight
    } else if file == 2 || file == 5 {
        Kind::Bishop
    } else if (file == 3) == (color == Color::White) {
        Kind::Queen
    } else {
        Kind::King
    }
}

/// The `n`-th of the sixteen pieces a side starts with: the eight pawns by
/// file, then the home rank by file.
pub open spec fn side_piece(color: Color, board: BoardId, n: int) -> PieceView {
    if n < 8 {
        PieceView { color, kind: Kind::Pawn, square: (pawn_rank(color), n), board }
    } else {
        PieceView { color, kind: home_kind(color, n - 8), square: (home_rank(color), n - 8), board }
    }
}

/// The sixteen pieces a side starts with, in setup order.
pub open spec fn side_layout(color: Color, board: BoardId) -> Seq<PieceView> {
    Seq::new(16, |n: int| side_piece(color, board, n))
}

/// The thirty-two pieces of the starting position, in setup order: White's,
/// then Black's.
pub open spec fn standard_layout(board: BoardId) -> Seq<PieceView> {
    side_layout(Color::White, board) + side_layout(Color::Black, board)
}

impl View for Board {
    type V = Seq<PieceView>;

    /// The pieces as mathematical values, in setup order.
    open spec fn view(&self) -> Seq<PieceView> {
        self.pieces().map_values(|piece: Piece| piece@)
    }
}

/// Makes the position of a square known to be on the board.
fn square(x: i8, y: i8) -> (position: Position)
    requires
        Position::in_bounds(x as int, y as int),
    ensures
        position@ == (x as int, y as int),
        position.valid(),
{
    Position::new(x, y).unwrap()
}

impl Board {
    /// The board's identifier.
    pub closed spec fn id(&self) -> BoardId {
        self.id
    }

    /// The pieces, in the order they were set up.
    pub closed spec fn pieces(&self) -> Seq<Piece> {
        self.pieces@
    }

    /// The table from squares to slots in [`Board::pieces`].
    pub closed spec fn index(&self) -> Map<(i8, i8), usize> {
        index_entries(self.pieces_map)
    }

    /// Holds of every `Board` that executable code can get hold of: the
    /// pieces stand on squares of the board and refer back to this board, and
    /// each square in the table leads to a piece standing on it.
    #[verifier::type_invariant]
    pub open spec fn wf(&self) -> bool {
        &&& self.index().dom().finite()
        &&& forall|i: int|
            0 <= i < self.pieces().len() ==> (#[trigger] self.pieces()[i]).valid()
                && self.pieces()[i]@.board == self.id()
        &&& forall|k: (i8, i8)| #[trigger]
            self.index().contains_key(k) ==> self.index()[k] < self.pieces().len()
                && self.pieces()[self.index()[k] as int]@.square == (k.0 as int, k.1 as int)
    }

    /// The table knows every piece: the square of the piece in slot `i`
    /// leads to `i`. On such a board no two pieces share a square.
    pub open spec fn indexed(&self) -> bool {
        forall|i: int|
            0 <= i < self.pieces().len() ==> self.index().contains_key(
                #[trigger] key_of(self.pieces()[i]@.square),
            ) && self.index()[key_of(self.pieces()[i]@.square)] == i
    }

    /// The board's identifier.
    pub fn handle(&self) -> (id: BoardId)
        ensures
            id == self.id(),
    {
        self.id
    }

    /// A board named `id` without any piece.
    pub fn new_empty_with_id(id: BoardId) -> (board: Board)
        ensures
            board.id() == id,
            board.pieces() == Seq::<Piece>::empty(),
            board.index() == no_entries(),
            board.wf(),
            board.indexed(),
    {
        Board { id, pieces: Vec::with_capacity(32), pieces_map: index_new() }
    }

    /// A board without any piece, named `BoardId(0)`.
    pub fn new_empty() -> (board: Board)
        ensures
            board.id() == BoardId(0),
            board.pieces() == Seq::<Piece>::empty(),
            board.index() == no_entries(),
            board.wf(),
            board.indexed(),
    {
        Self::new_empty_with_id(BoardId(0))
    }
}

/// White's sixteen starting pieces are added behind the board's pieces. The
/// table is left as it was.
fn add_white_pieces(board: Board) -> (filled: Board)
    ensures
        filled.id() == board.id(),
        filled.index() == board.index(),
        filled@ == board@ + side_layout(Color::White, board.id()),
{
    let white = Color::White;
    let mut added: Vec<Piece> = Vec::with_capacity(16);
    let mut i: i8 = 0;
    while i < 8
        invariant
            0 <= i <= 8,
            white == Color::White,
            added@.len() == i,
            forall|n: int|
                0 <= n < i ==> (#[trigger] added@[n]).valid() && added@[n]@ == side_piece(
                    Color::White,
                    board.id(),
                    n,
                ),
        decreases 8 - i,
    {
        let pawn = Piece::new(Kind::Pawn, white, square(1, i), &board);
        added.push(pawn);
        i += 1;
    }
    added.push(Piece::new(Kind::Rook, white, square(0, 0), &board));
    added.push(Piece::new(Kind::Knight, white, square(0, 1), &board));
    added.push(Piece::new(Kind::Bishop, white, square(0, 2), &board));
    added.push(Piece::new(Kind::Queen, white, square(0, 3), &board));
    added.push(Piece::new(Kind::King, white, square(0, 4), &board));
    added.push(Piece::new(Kind::Bishop, white, square(0, 5), &board));
    added.push(Piece::new(Kind::Knight, white, square(0, 6), &board));
    added.push(Piece::new(Kind::Rook, white, square(0, 7), &board));
    board.extended(added)
}

/// Black's sixteen starting pieces are added behind the board's pieces. The
/// table is left as it was.
fn add_black_pieces(board: Board) -> (filled: Board)
    ensures
        filled.id() == board.id(),
        filled.index() == board.index(),
        filled@ == board@ + side_layout(Color::Black, board.id()),
{
    let black = Color::Black;
    let mut added: Vec<Piece> = Vec::with_capacity(16);
    let mut i: i8 = 0;
    while i < 8
        invariant
            0 <= i <= 8,
            black == Color::Black,
            added@.len() == i,
            forall|n: int|
                0 <= n < i ==> (#[trigger] added@[n]).valid() && added@[n]@ == side_piece(
                    Color::Black,
                    board.id(),
                    n,
                ),
        decreases 8 - i,
    {
        let pawn = Piece::new(Kind::Pawn, black, square(6, i), &board);
        added.push(pawn);
        i += 1;
    }
    added.push(Piece::new(Kind::Rook, black, square(7, 0), &board));
    added.push(Piece::new(Kind::Knight, black, square(7, 1), &board));
    added.push(Piece::new(Kind::Bishop, black, square(7, 2), &board));
    added.push(Piece::new(Kind::King, black, square(7, 3), &board));
    added.push(Piece::new(Kind::Queen, black, square(7, 4), &board));
    added.push(Piece::new(Kind::Bishop, black, square(7, 5), &board));
    added.push(Piece::new(Kind::Knight, black, square(7, 6), &board));
    added.push(Piece::new(Kind::Rook, black, square(7, 7), &board));
    board.extended(added)
}

/// The thirty-two starting pieces are added behind the board's pieces,
/// White's first. The table is left as it was.
fn add_default_pieces(board: Board) -> (filled: Board)
    ensures
        filled.id() == board.id(),
        filled.index() == board.index(),
        filled@ == board@ + standard_layout(board.id()),
{
    let with_white = add_white_pieces(board);
    add_black_pieces(with_white)
}

impl Board {
    /// The board with `added` behind its pieces; the table is left as it was.
    fn extended(self, added: Vec<Piece>) -> (longer: Board)
        requires
            forall|n: int|
                0 <= n < added@.len() ==> (#[trigger] added@[n]).valid() && added@[n]@.board
                    == self.id(),
        ensures
            longer.id() == self.id(),
            longer.index() == self.index(),
            longer.pieces() == self.pieces() + added@,
    {
        proof {
            use_type_invariant(&self);
        }
        let Board { id, pieces, pieces_map } = self;
        let mut pieces = pieces;
        let mut added = added;
        pieces.append(&mut added);
        Board { id, pieces, pieces_map }
    }

    /// The table `base` after the squares of the first `n` of `pieces` have
    /// been entered in turn, each leading to its slot.
    pub open spec fn index_after(pieces: Seq<Piece>, n: int, base: Map<(i8, i8), usize>) -> Map<
        (i8, i8),
        usize,
    >
        decreases n,
    {
        if n <= 0 {
            base
        } else {
            Self::index_after(pieces, n - 1, base).insert(
                key_of(pieces[n - 1]@.square),
                (n - 1) as usize,
            )
        }
    }

    /// Enters the square of every piece into the table, in setup order, each
    /// leading to the slot of its piece. The pieces are left as they were.
    fn rebuild_index(self) -> (done: Board)
        ensures
            done.id() == self.id(),
            done.pieces() == self.pieces(),
            done.index() == Self::index_after(self.pieces(), self.pieces().len() as int, self.index()),
    {
        proof {
            use_type_invariant(&self);
        }
        let ghost base = self.index();
        let Board { id, pieces, pieces_map } = self;
        let mut pieces_map = pieces_map;
        let mut slot: usize = 0;
        while slot < pieces.len()
            invariant
                0 <= slot <= pieces@.len(),
                forall|i: int| 0 <= i < pieces@.len() ==> (#[trigger] pieces@[i]).valid(),
                index_entries(pieces_map) == Self::index_after(pieces@, slot as int, base),
                index_entries(pieces_map).dom().finite(),
                forall|k: (i8, i8)| #[trigger]
                    index_entries(pieces_map).contains_key(k) ==> index_entries(pieces_map)[k]
                        < pieces@.len() && pieces@[index_entries(pieces_map)[k] as int]@.square == (
                        k.0 as int,
                        k.1 as int,
                    ),
            decreases pieces@.len() - slot,
        {
            let position = pieces[slot].get_position();
            index_insert(&mut pieces_map, position.x(), position.y(), slot);
            slot += 1;
        }
        Board { id, pieces, pieces_map }
    }

    /// On pieces that stand on different squares, the table built from
    /// nothing has one entry for each piece, and the square of each piece
    /// leads to its slot.
    pub proof fn lemma_index_of_distinct_squares(pieces: Seq<Piece>, n: int)
        requires
            0 <= n <= pieces.len() <= usize::MAX,
            forall|i: int| 0 <= i < n ==> (#[trigger] pieces[i]).valid(),
            forall|i: int, j: int|
                0 <= i < j < n ==> (#[trigger] pieces[i])@.square != (#[trigger] pieces[j])@.square,
        ensures
            Self::index_after(pieces, n, no_entries()).dom().finite(),
            Self::index_after(pieces, n, no_entries()).len() == n,
            forall|i: int|
                0 <= i < n ==> Self::index_after(pieces, n, no_entries()).contains_key(
                    #[trigger] key_of(pieces[i]@.square),
                ) && Self::index_after(pieces, n, no_entries())[key_of(pieces[i]@.square)] == i,
            forall|k: (i8, i8)| #[trigger]
                Self::index_after(pieces, n, no_entries()).contains_key(k) ==> exists|i: int|
                    0 <= i < n && key_of((#[trigger] pieces[i])@.square) == k,
        decreases n,
    {
        if n > 0 {
            Self::lemma_index_of_distinct_squares(pieces, n - 1);
            let shorter = Self::index_after(pieces, n - 1, no_entries());
            let last = key_of(pieces[n - 1]@.square);
            assert(!shorter.contains_key(last)) by {
                if shorter.contains_key(last) {
                    let i = choose|i: int| 0 <= i < n - 1 && key_of((#[trigger] pieces[i])@.square) == last;
                    assert(pieces[i].valid() && pieces[n - 1].valid());
                }
            }
            assert forall|i: int| 0 <= i < n implies Self::index_after(
                pieces,
                n,
                no_entries(),
            ).contains_key(#[trigger] key_of(pieces[i]@.square)) && Self::index_after(
                pieces,
                n,
                no_entries(),
            )[key_of(pieces[i]@.square)] == i by {
                if i < n - 1 {
                    assert(shorter.contains_key(key_of(pieces[i]@.square)));
                    assert(pieces[i].valid() && pieces[n - 1].valid());
                }
            }
        }
    }

    /// A board named `id` with the thirty-two pieces of the starting
    /// position, every one of them entered in the table.
    pub fn new_with_id(id: BoardId) -> (board: Board)
        ensures
            board.id() == id,
            board.pieces().len() == 32,
            board@ == standard_layout(id),
            board.wf(),
            board.indexed(),
            board.index().len() == 32,
    {
        let empty = Board::new_empty_with_id(id);
        let filled = add_default_pieces(empty);
        let board = filled.rebuild_index();
        proof {
            use_type_invariant(&board);
            lemma_standard_squares_differ(id);
            assert(board@ == standard_layout(id));
            assert forall|i: int, j: int| 0 <= i < j < 32 implies (#[trigger] board.pieces()[i])@.square
                != (#[trigger] board.pieces()[j])@.square by {
                assert(board@[i] == board.pieces()[i]@);
                assert(board@[j] == board.pieces()[j]@);
            }
            Self::lemma_index_of_distinct_squares(board.pieces(), 32);
        }
        board
    }

    /// A board named `BoardId(0)` with the thirty-two pieces of the starting
    /// position, every one of them entered in the table.
    pub fn new() -> (board: Board)
        ensures
            board.id() == BoardId(0),
            board.pieces().len() == 32,
            board@ == standard_layout(BoardId(0)),
            board.wf(),
            board.indexed(),
            board.index().len() == 32,
    {
        Self::new_with_id(BoardId(0))
    }

    /// All pieces, in setup order.
    pub fn get_pieces(&self) -> (all: &[Piece])
        ensures
            all@ == self.pieces(),
    {
        self.pieces.as_slice()
    }

    /// The piece that the table finds on `square`, if it finds one.
    pub open spec fn occupant(&self, square: (int, int)) -> Option<Piece> {
        if Position::in_bounds(square.0, square.1) && self.index().contains_key(key_of(square)) {
            Some(self.pieces()[self.index()[key_of(square)] as int])
        } else {
            None
        }
    }

    /// The colours that the table finds, square by square.
    pub open spec fn occupancy(&self) -> Map<(int, int), Color> {
        Map::new(
            |square: (int, int)| self.occupant(square) is Some,
            |square: (int, int)| self.occupant(square)->Some_0@.color,
        )
    }

    /// Looks `position` up in the table: the piece standing there, or
    /// nothing when the table has no entry for the square.
    pub fn piece_at(&self, position: Position) -> (found: Option<Piece>)
        ensures
            found == self.occupant(position@),
            found is Some ==> found->Some_0@.square == position@,
    {
        proof {
            use_type_invariant(self);
        }
        match index_get(&self.pieces_map, position.x(), position.y()) {
            Some(slot) => Some(self.pieces[slot]),
            None => None,
        }
    }

    /// The number of squares entered in the table.
    pub fn indexed_squares(&self) -> (count: usize)
        ensures
            count == self.index().len(),
    {
        index_len(&self.pieces_map)
    }

    /// On a board whose table knows every piece, looking up the square of a
    /// piece finds that piece.
    pub proof fn lemma_lookup_finds_piece(board: Board, slot: int)
        requires
            board.wf(),
            board.indexed(),
            0 <= slot < board.pieces().len(),
        ensures
            board.occupant(board.pieces()[slot]@.square) == Some(board.pieces()[slot]),
    {
        assert(board.pieces()[slot].valid());
        assert(board.index().contains_key(key_of(board.pieces()[slot]@.square)));
    }

    /// A piece that a lookup finds stands on the square that was asked for,
    /// and is one of the board's pieces.
    pub proof fn lemma_lookup_is_sound(board: Board, square: (int, int))
        requires
            board.wf(),
            board.occupant(square) is Some,
        ensures
            board.occupant(square)->Some_0@.square == square,
            board.pieces().contains(board.occupant(square)->Some_0),
    {
        assert(board.index().contains_key(key_of(square)));
    }

    /// On a board whose table knows every piece, no two pieces share a
    /// square.
    pub proof fn lemma_indexed_squares_differ(board: Board, first: int, second: int)
        requires
            board.wf(),
            board.indexed(),
            0 <= first < second < board.pieces().len(),
        ensures
            board.pieces()[first]@.square != board.pieces()[second]@.square,
    {
        assert(board.index().contains_key(key_of(board.pieces()[first]@.square)));
        assert(board.index().contains_key(key_of(board.pieces()[second]@.square)));
    }
}

/// How many of the first `n` of `pieces` have the given colour and, where one
/// is named, the given kind.
pub open spec fn count_among(pieces: Seq<PieceView>, n: int, color: Color, kind: Option<Kind>) -> int
    decreases n,
{
    if n <= 0 {
        0
    } else {
        count_among(pieces, n - 1, color, kind) + if pieces[n - 1].color == color && (kind is None
            || kind == Some(pieces[n - 1].kind)) {
            1int
        } else {
            0int
        }
    }
}

/// How many of `pieces` have the given colour and, where one is named, the
/// given kind.
pub open spec fn count(pieces: Seq<PieceView>, color: Color, kind: Option<Kind>) -> int {
    count_among(pieces, pieces.len() as int, color, kind)
}

/// The starting position holds thirty-two pieces, sixteen of each colour:
/// for each colour eight pawns, two rooks, two knights, two bishops, one
/// queen and one king.
pub proof fn lemma_standard_census(board: BoardId, color: Color)
    ensures
        standard_layout(board).len() == 32,
        count(standard_layout(board), color, None) == 16,
        count(standard_layout(board), color, Some(Kind::Pawn)) == 8,
        count(standard_layout(board), color, Some(Kind::Rook)) == 2,
        count(standard_layout(board), color, Some(Kind::Knight)) == 2,
        count(standard_layout(board), color, Some(Kind::Bishop)) == 2,
        count(standard_layout(board), color, Some(Kind::Queen)) == 1,
        count(standard_layout(board), color, Some(Kind::King)) == 1,
{
    reveal_with_fuel(count_among, 33);
}

/// No two pieces of the starting position stand on the same square.
pub proof fn lemma_standard_squares_differ(board: BoardId)
    ensures
        standard_layout(board).len() == 32,
        forall|i: int, j: int|
            0 <= i < j < 32 ==> (#[trigger] standard_layout(board)[i]).square != (
            #[trigger] standard_layout(board)[j]).square,
{
}

} // verus!
