//! A chess rules engine: positions, the movement rules of the six piece kinds,
//! castling, en passant and promotion, check and checkmate, and the board that
//! applies legal moves.
//!
//! The rules are stated as mathematics in [`rules`] and in
//! [`piece::step::Step`]; the executable functions are proved to compute what
//! these say, and [`theorems`] holds what follows from them.

pub mod board;
pub mod geometry;
pub mod piece;
pub mod rules;
pub mod seqs;
pub mod theorems;
pub mod util;

pub use board::history::{BoardHistory, PreviousMove};
pub use board::pieces::{PieceUpdate, Pieces};
pub use board::{Board, MoveError, State, Turn};
pub use piece::step::king::{Castling, KingMove, KingTarget};
pub use piece::step::pawn::{pawn_promotion, DoubleMove, EnPassant, PawnTake, SingleMove};
pub use piece::step::{
    occupied, BishopStep, KnightStep, MultiStep, PieceStep, QueenStep, RookStep, Step,
};
pub use piece::{BoardPiece, Piece};
pub use util::command::Command;
pub use util::parse::{ParseMoveError, ParsePosError, ParsePositions};
pub use util::pos::{Move, Pos, PosInt};
pub use util::Side;
