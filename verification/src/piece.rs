//! Pieces: a colour, a kind, the square the piece stands on, and the board
//! it belongs to.

use crate::board::{Board, BoardId};
use crate::position::Position;
use vstd::prelude::*;
use vstd::std_specs::cmp::PartialEqSpec;

verus! {

/// The side a piece plays for.
#[derive(Debug, Clone, Copy, Hash, PartialEq, Eq, Structural)]
pub enum Color {
    White,
    Black,
}

/// What a piece is.
#[derive(Debug, Clone, Copy, Hash, PartialEq, Eq, Structural)]
pub enum Kind {
    King,
    Queen,
    Knight,
    Bishop,
    Rook,
    Pawn,
}

impl Color {
    /// The colour's name in lower case.
    pub open spec fn name(self) -> Seq<char> {
        match self {
            Color::White => "white"@,
            Color::Black => "black"@,
        }
    }

    /// The colour's name in lower case, as text.
    pub fn to_string(&self) -> (text: String)
        ensures
            text@ == self.name(),
    {
        match self {
            Color::White => String::from_str("white"),
            Color::Black => String::from_str("black"),
        }
    }
}

impl Kind {
    /// The kind's name in lower case.
    pub open spec fn name(self) -> Seq<char> {
        match self {
            Kind::King => "king"@,
            Kind::Queen => "queen"@,
            Kind::Knight => "knight"@,
            Kind::Bishop => "bishop"@,
            Kind::Rook => "rook"@,
            Kind::Pawn => "pawn"@,
        }
    }

    /// The kind's name in lower case, as text.
    pub fn to_string(&self) -> (text: String)
        ensures
            text@ == self.name(),
    {
        match self {
            Kind::King => String::from_str("king"),
            Kind::Queen => String::from_str("queen"),
            Kind::Knight => String::from_str("knight"),
            Kind::Bishop => String::from_str("bishop"),
            Kind::Rook => String::from_str("rook"),
            Kind::Pawn => String::from_str("pawn"),
        }
    }
}

/// A piece as a mathematical value.
pub struct PieceView {
    pub color: Color,
    pub kind: Kind,
    /// Rank and file of the square the piece stands on.
    pub square: (int, int),
    /// The board the piece refers back to.
    pub board: BoardId,
}

/// A chess piece.
///
/// The piece does not own its board: it only remembers which board it was
/// made for. Two pieces are equal when colour, kind and square agree,
/// whatever boards they refer to.
#[derive(Debug, Clone, Copy)]
pub struct Piece {
    color: Color,
    kind: Kind,
    position: Position,
    board: BoardId,
}

impl View for Piece {
    type V = PieceView;

    closed spec fn view(&self) -> PieceView {
        PieceView {
            color: self.color,
            kind: self.kind,
            square: self.position@,
            board: self.board,
        }
    }
}

impl PartialEq for Piece {
    fn eq(&self, other: &Self) -> (same: bool) {
        proof {
            if self.position@ == other.position@ {
                Position::lemma_view_is_injective(self.position, other.position);
            }
        }
        self.color == other.color && self.kind == other.kind && self.position == other.position
    }
}

impl vstd::std_specs::cmp::PartialEqSpecImpl for Piece {
    open spec fn obeys_eq_spec() -> bool {
        true
    }

    open spec fn eq_spec(&self, other: &Self) -> bool {
        self@.color == other@.color && self@.kind == other@.kind && self@.square == other@.square
    }
}

impl Piece {
    /// Holds of every `Piece` that executable code can get hold of: it stands
    /// on a square of the board.
    #[verifier::type_invariant]
    pub open spec fn valid(&self) -> bool {
        Position::in_bounds(self@.square.0, self@.square.1)
    }

    /// Makes a piece of the given kind and colour on `position`, referring
    /// back to `board`. The board is not changed and is not kept alive by the
    /// piece.
    pub fn new(kind: Kind, color: Color, position: Position, board: &Board) -> (piece: Piece)
        ensures
            piece@ == (PieceView { color, kind, square: position@, board: board.id() }),
            piece.valid(),
    {
        proof {
            use_type_invariant(&position);
        }
        Piece { kind, color, position, board: board.handle() }
    }

    /// The side the piece plays for.
    pub fn get_color(&self) -> (color: Color)
        ensures
            color == self@.color,
    {
        self.color
    }

    /// What the piece is.
    pub fn get_kind(&self) -> (kind: Kind)
        ensures
            kind == self@.kind,
    {
        self.kind
    }

    /// The square the piece stands on.
    pub fn get_position(&self) -> (position: Position)
        ensures
            position@ == self@.square,
            position.valid(),
    {
        proof {
            use_type_invariant(self);
        }
        self.position
    }

    /// The board the piece refers back to.
    pub fn get_board(&self) -> (board: BoardId)
        ensures
            board == self@.board,
    {
        self.board
    }

    /// The file name of the picture that shows the piece: colour and kind
    /// in lower case, joined by an underscore, with the extension `.png`.
    pub open spec fn spec_sprite_name(&self) -> Seq<char> {
        self@.color.name() + "_"@ + self@.kind.name() + ".png"@
    }

    /// The file name of the picture that shows the piece, such as
    /// `white_king.png`.
    pub fn sprite_name(&self) -> (name: String)
        ensures
            name@ == self.spec_sprite_name(),
    {
        let mut name = self.color.to_string();
        name.append("_");
        let kind = self.kind.to_string();
        name.append(kind.as_str());
        name.append(".png");
        name
    }

    /// Equality looks at colour, kind and square only: pieces that agree on
    /// the three are equal even when they refer back to different boards.
    pub proof fn lemma_equality_ignores_board(a: Piece, b: Piece)
        requires
            a@.color == b@.color,
            a@.kind == b@.kind,
            a@.square == b@.square,
        ensures
            a.eq_spec(&b),
    {
    }
}

} // verus!
