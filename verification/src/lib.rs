//! A chess board: squares, pieces, the standard starting layout, and the
//! squares each piece can move to.
//!
//! Every executable function carries a contract that Verus proves; the few
//! places where the proofs rest on code outside this crate are the items of
//! [`index`], each documented with what is taken on trust.

pub mod board;
pub mod index;
pub mod moves;
pub mod piece;
pub mod position;

pub use board::{Board, BoardId};
pub use piece::{Color, Kind, Piece, PieceView};
pub use position::{OutOfBounds, Position};
