//! The rules by which a pawn moves.

use vstd::prelude::*;

use crate::board::pieces::Pieces;
use crate::board::Board;
use crate::piece::step::{passed_square, PieceStep, Step};
use crate::piece::Piece;
use crate::util::pos::{Move, Pos};
use crate::util::Side;

verus! {

/// A pawn's step straight ahead onto an empty square.
pub struct SingleMove;

/// A pawn's double step from its starting rank over an empty square onto an
/// empty square.
pub struct DoubleMove;

/// A pawn's diagonal step onto a square that a piece of the opponent
/// occupies.
pub struct PawnTake;

/// A pawn's diagonal step onto an empty square, past an enemy pawn that has
/// moved exactly once and is captured by it.
pub struct EnPassant;

impl DoubleMove {
    /// Whether the pawn stands on its starting rank and both squares ahead
    /// of it are empty.
    pub fn way_free(pieces: &Pieces, mov: Move, side: Side) -> (r: bool)
        ensures
            r == (mov.from.on_board() && mov.to.on_board() && Step::DoubleMove.spec_occupancy(
                pieces@,
                mov,
                side,
            )),
    {
        if !mov.from.is_on_board() || !mov.to.is_on_board() || mov.from.y != side.offset(1) {
            return false;
        }
        let between = Pos { x: mov.from.x, y: mov.from.y + side.forward() };
        pieces.at(&between).is_none() && pieces.at(&mov.to).is_none()
    }
}

impl PawnTake {
    /// Whether a piece of the opponent stands on the destination.
    pub fn enemy_there(pieces: &Pieces, mov: Move, side: Side) -> (r: bool)
        ensures
            r == Step::PawnTake.spec_occupancy(pieces@, mov, side),
    {
        match pieces.at(&mov.to) {
            Some(piece) => piece.side == side.other(),
            None => false,
        }
    }
}

impl EnPassant {
    /// Whether the destination is empty and an enemy pawn stands behind it.
    pub fn pawn_passed(pieces: &Pieces, mov: Move, side: Side) -> (r: bool)
        ensures
            r == (mov.from.on_board() && mov.to.on_board() && Step::EnPassant.spec_occupancy(
                pieces@,
                mov,
                side,
            )),
    {
        if !mov.from.is_on_board() || !mov.to.is_on_board() || pieces.at(&mov.to).is_some() {
            return false;
        }
        let behind = Pos { x: mov.to.x, y: mov.to.y - side.forward() };
        assert(behind == passed_square(mov, side));
        match pieces.at(&behind) {
            Some(piece) => piece.side == side.other() && piece.kind == Piece::Pawn,
            None => false,
        }
    }
}

/// Turns the piece on `mov.to` into a queen if the square lies on the home
/// rank of the opponent of `side`.
pub fn pawn_promotion(board: &mut Board, mov: Move, side: Side)
    ensures
        final(board).pieces@ == crate::piece::step::promoted(old(board).pieces@, mov, side),
        final(board).pieces.pending() == old(board).pieces.pending()
            + crate::piece::step::promotion_events(old(board).pieces@, mov, side),
        final(board).history == old(board).history,
        final(board).state == old(board).state,
{
    if mov.to.y == side.other().origin() {
        board.pieces.modify(&mov.to, Piece::Queen);
    }
    assert(board.pieces.pending() =~= old(board).pieces.pending()
        + crate::piece::step::promotion_events(old(board).pieces@, mov, side));
}

impl PieceStep for SingleMove {
    open spec fn rule(&self) -> Step {
        Step::SingleMove
    }

    fn once(&self) -> (r: bool) {
        Step::SingleMove.single()
    }

    fn directions(&self) -> (r: Vec<Pos>) {
        Step::SingleMove.vectors()
    }

    fn condition(&self, board: &Board, mov: Move, _side: Side) -> (r: bool) {
        mov.from.is_on_board() && mov.to.is_on_board() && board.pieces.at(&mov.to).is_none()
    }

    fn on_move(&self, board: &mut Board, mov: Move, side: Side) {
        if mov.to.is_on_board() {
            pawn_promotion(board, mov, side);
        } else {
            assert(board.pieces.pending() =~= old(board).pieces.pending() + Seq::empty());
        }
    }
}

impl PieceStep for DoubleMove {
    open spec fn rule(&self) -> Step {
        Step::DoubleMove
    }

    fn once(&self) -> (r: bool) {
        Step::DoubleMove.single()
    }

    fn directions(&self) -> (r: Vec<Pos>) {
        Step::DoubleMove.vectors()
    }

    fn condition(&self, board: &Board, mov: Move, side: Side) -> (r: bool) {
        DoubleMove::way_free(&board.pieces, mov, side)
    }

    fn on_move(&self, board: &mut Board, mov: Move, side: Side) {
        if mov.to.is_on_board() {
            pawn_promotion(board, mov, side);
        } else {
            assert(board.pieces.pending() =~= old(board).pieces.pending() + Seq::empty());
        }
    }
}

impl PieceStep for PawnTake {
    open spec fn rule(&self) -> Step {
        Step::PawnTake
    }

    fn once(&self) -> (r: bool) {
        Step::PawnTake.single()
    }

    fn directions(&self) -> (r: Vec<Pos>) {
        Step::PawnTake.vectors()
    }

    fn condition(&self, board: &Board, mov: Move, side: Side) -> (r: bool) {
        mov.from.is_on_board() && mov.to.is_on_board() && PawnTake::enemy_there(
            &board.pieces,
            mov,
            side,
        )
    }

    fn on_move(&self, board: &mut Board, mov: Move, side: Side) {
        if mov.to.is_on_board() {
            pawn_promotion(board, mov, side);
        } else {
            assert(board.pieces.pending() =~= old(board).pieces.pending() + Seq::empty());
        }
    }
}

impl PieceStep for EnPassant {
    open spec fn rule(&self) -> Step {
        Step::EnPassant
    }

    fn once(&self) -> (r: bool) {
        Step::EnPassant.single()
    }

    fn directions(&self) -> (r: Vec<Pos>) {
        Step::EnPassant.vectors()
    }

    fn condition(&self, board: &Board, mov: Move, side: Side) -> (r: bool) {
        if !EnPassant::pawn_passed(&board.pieces, mov, side) {
            return false;
        }
        let behind = Pos { x: mov.to.x, y: mov.to.y - side.forward() };
        board.history.of(behind).len() == 2
    }

    fn on_move(&self, board: &mut Board, mov: Move, side: Side) {
        if mov.to.is_on_board() {
            let behind = Pos { x: mov.to.x, y: mov.to.y - side.forward() };
            board.pieces.take(&behind);
            pawn_promotion(board, mov, side);
            assert(board.pieces.pending() =~= old(board).pieces.pending()
                + Step::EnPassant.spec_events(old(board).pieces@, mov, side));
        } else {
            assert(board.pieces.pending() =~= old(board).pieces.pending() + Seq::empty());
        }
    }
}

} // verus!
