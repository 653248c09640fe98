//! Board coordinates.
//!
//! A [`Position`] names one square of the 8×8 board. Square `(0, 0)` is the
//! bottom-left corner; the first coordinate is the rank and the second the
//! file. A `Position` can only be obtained for a square that exists, so the
//! rest of the crate never has to re-check one.

use vstd::prelude::*;

verus! {

/// The error of [`Position::new`]: the rejected coordinates.
#[derive(Debug, Clone, Copy, PartialEq, Eq, Structural)]
pub struct OutOfBounds {
    pub x: i8,
    pub y: i8,
}

/// A square of the board.
#[derive(Debug, Clone, Copy, Hash, PartialEq, Eq, Structural)]
pub struct Position {
    x: i8,
    y: i8,
}

impl View for Position {
    type V = (int, int);

    /// The square as a pair of mathematical integers, rank first.
    closed spec fn view(&self) -> (int, int) {
        (self.x as int, self.y as int)
    }
}

impl Position {
    /// The board's bounds: both coordinates lie in `0..=7`.
    pub open spec fn in_bounds(x: int, y: int) -> bool {
        0 <= x <= 7 && 0 <= y <= 7
    }

    /// Holds of every `Position` that executable code can get hold of.
    #[verifier::type_invariant]
    pub open spec fn valid(&self) -> bool {
        Self::in_bounds(self@.0, self@.1)
    }

    /// What [`Position::new`] returns, as a mathematical function.
    pub closed spec fn spec_new(x: i8, y: i8) -> Result<Position, OutOfBounds> {
        if Self::in_bounds(x as int, y as int) {
            Ok(Position { x, y })
        } else {
            Err(OutOfBounds { x, y })
        }
    }

    /// Tests whether `(x, y)` is a square of the board. Every bounds check in
    /// the crate goes through this predicate.
    pub fn is_valid(x: i8, y: i8) -> (inside: bool)
        ensures
            inside == Self::in_bounds(x as int, y as int),
    {
        0 <= x && x <= 7 && 0 <= y && y <= 7
    }

    /// Makes the position of square `(x, y)`, or reports the coordinates back
    /// when no such square exists.
    #[verifier::when_used_as_spec(spec_new)]
    pub fn new(x: i8, y: i8) -> (placed: Result<Position, OutOfBounds>)
        ensures
            placed == Self::spec_new(x, y),
            placed is Ok <==> Self::in_bounds(x as int, y as int),
            placed is Ok ==> placed->Ok_0@ == (x as int, y as int) && placed->Ok_0.valid(),
            placed is Err ==> placed->Err_0 == (OutOfBounds { x, y }),
    {
        if Self::is_valid(x, y) {
            Ok(Position { x, y })
        } else {
            Err(OutOfBounds { x, y })
        }
    }

    /// The rank of the square.
    pub fn x(&self) -> (x: i8)
        ensures
            x == self@.0,
            0 <= x <= 7,
    {
        proof {
            use_type_invariant(self);
        }
        self.x
    }

    /// The file of the square.
    pub fn y(&self) -> (y: i8)
        ensures
            y == self@.1,
            0 <= y <= 7,
    {
        proof {
            use_type_invariant(self);
        }
        self.y
    }

    /// Every pair of in-range coordinates is accepted, and the position made
    /// from it reads back as the same pair.
    pub proof fn lemma_new_round_trips(x: i8, y: i8)
        requires
            Self::in_bounds(x as int, y as int),
        ensures
            Self::spec_new(x, y) is Ok,
            Self::spec_new(x, y)->Ok_0@ == (x as int, y as int),
            Self::spec_new(x, y)->Ok_0.valid(),
    {
    }

    /// A pair with a coordinate out of range is refused: no position comes
    /// back, only the error carrying the pair.
    pub proof fn lemma_new_rejects_outside(x: i8, y: i8)
        requires
            !Self::in_bounds(x as int, y as int),
        ensures
            Self::spec_new(x, y) == Err::<Position, OutOfBounds>(OutOfBounds { x, y }),
    {
    }

    /// Two positions with the same view are the same position.
    pub proof fn lemma_view_is_injective(a: Position, b: Position)
        requires
            a@ == b@,
        ensures
            a == b,
    {
    }
}

} // verus!
