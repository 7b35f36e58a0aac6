//! The rules by which a king threatens and moves.

use vstd::prelude::*;

use crate::board::pieces::Pieces;
use crate::board::Board;
use crate::piece::step::{
    castle_corner, castle_crossing, castle_landing, castle_length, castle_offset, PieceStep, Step,
};
use crate::rules::safe;
use crate::piece::Piece;
use crate::util::pos::{Move, Pos};
use crate::util::Side;

verus! {

/// The squares next to a king.
pub struct KingTarget;

/// A king's step to a square next to it that the opponent does not threaten.
pub struct KingMove;

/// A king's move of two or three files towards a rook, over empty squares
/// that the opponent does not threaten, while neither piece has moved.
pub struct Castling;

impl Castling {
    /// Whether a rook stands in the corner towards which the king moves and
    /// every square that the king crosses is empty.
    pub fn way_free(pieces: &Pieces, mov: Move, side: Side) -> (r: bool)
        ensures
            r == (mov.from.on_board() && mov.to.on_board() && Step::Castling.spec_occupancy(
                pieces@,
                mov,
                side,
            )),
    {
        if !mov.from.is_on_board() || !mov.to.is_on_board() {
            return false;
        }
        let offset = mov.to.x - mov.from.x;
        if offset == 0 {
            return false;
        }
        let right = offset > 0;
        let length = if right { offset } else { -offset };
        let corner = Pos { x: if right { 7 } else { 0 }, y: side.origin() };
        assert(corner == castle_corner(mov, side));
        match pieces.at(&corner) {
            Some(piece) => {
                if piece.kind != Piece::Rook {
                    return false;
                }
            },
            None => {
                return false;
            },
        }
        let mut i: i8 = 1;
        while i <= length
            invariant
                mov.from.on_board(),
                mov.to.on_board(),
                right == (castle_offset(mov) > 0),
                length == castle_length(mov),
                1 <= i <= length + 1,
                forall|k: int|
                    1 <= k < i ==> !pieces@.dom().contains(#[trigger] castle_crossing(mov, k)),
            decreases length + 1 - i,
        {
            let crossed = Pos {
                x: if right { mov.from.x + i } else { mov.from.x - i },
                y: mov.from.y,
            };
            assert(crossed == castle_crossing(mov, i as int));
            if pieces.at(&crossed).is_some() {
                return false;
            }
            i += 1;
        }
        true
    }
}

impl KingMove {
    /// Whether no piece of the opponent of `side` threatens the square.
    pub fn safe(board: &Board, position: Pos, side: Side) -> (r: bool)
        ensures
            r == safe(board.pieces@, position, side),
    {
        !board.pieces.attacked(side.other(), position)
    }
}

impl Castling {
    /// Whether the opponent threatens neither the king's square nor any
    /// square that the king crosses.
    pub fn way_safe(board: &Board, mov: Move, side: Side) -> (r: bool)
        ensures
            r == (mov.from.on_board() && mov.to.on_board() && Step::Castling.spec_safety(
                board.pieces@,
                mov,
                side,
            )),
    {
        if !mov.from.is_on_board() || !mov.to.is_on_board() {
            return false;
        }
        if !KingMove::safe(board, mov.from, side) {
            return false;
        }
        let offset = mov.to.x - mov.from.x;
        let right = offset > 0;
        let length = if right { offset } else { -offset };
        let mut i: i8 = 1;
        while i <= length
            invariant
                mov.from.on_board(),
                mov.to.on_board(),
                right == (castle_offset(mov) > 0),
                length == castle_length(mov),
                1 <= i <= length + 1,
                forall|k: int|
                    1 <= k < i ==> safe(board.pieces@, #[trigger] castle_crossing(mov, k), side),
            decreases length + 1 - i,
        {
            let crossed = Pos {
                x: if right { mov.from.x + i } else { mov.from.x - i },
                y: mov.from.y,
            };
            assert(crossed == castle_crossing(mov, i as int));
            if !KingMove::safe(board, crossed, side) {
                return false;
            }
            i += 1;
        }
        true
    }
}

impl PieceStep for KingTarget {
    open spec fn rule(&self) -> Step {
        Step::KingTarget
    }

    fn once(&self) -> (r: bool) {
        Step::KingTarget.single()
    }

    fn directions(&self) -> (r: Vec<Pos>) {
        Step::KingTarget.vectors()
    }

    fn condition(&self, _board: &Board, mov: Move, _side: Side) -> (r: bool) {
        mov.from.is_on_board() && mov.to.is_on_board()
    }

    fn on_move(&self, _board: &mut Board, _mov: Move, _side: Side) {
    }
}

impl PieceStep for KingMove {
    open spec fn rule(&self) -> Step {
        Step::KingMove
    }

    fn once(&self) -> (r: bool) {
        Step::KingMove.single()
    }

    fn directions(&self) -> (r: Vec<Pos>) {
        Step::KingMove.vectors()
    }

    fn condition(&self, board: &Board, mov: Move, side: Side) -> (r: bool) {
        mov.from.is_on_board() && mov.to.is_on_board() && KingMove::safe(board, mov.to, side)
    }

    fn on_move(&self, _board: &mut Board, _mov: Move, _side: Side) {
    }
}

impl PieceStep for Castling {
    open spec fn rule(&self) -> Step {
        Step::Castling
    }

    fn once(&self) -> (r: bool) {
        Step::Castling.single()
    }

    fn directions(&self) -> (r: Vec<Pos>) {
        Step::Castling.vectors()
    }

    fn condition(&self, board: &Board, mov: Move, side: Side) -> (r: bool) {
        if !Castling::way_free(&board.pieces, mov, side) {
            return false;
        }
        let corner = Pos { x: if mov.to.x > mov.from.x { 7 } else { 0 }, y: side.origin() };
        let no_king_move = board.history.of(mov.from).len() == 1;
        let no_rook_move = board.history.of(corner).len() == 1;
        no_king_move && no_rook_move && Castling::way_safe(board, mov, side)
    }

    fn on_move(&self, board: &mut Board, mov: Move, side: Side) {
        if !mov.to.is_on_board() {
            assert(board.pieces.pending() =~= old(board).pieces.pending() + Seq::empty());
            return ;
        }
        let right = mov.to.x as i16 - mov.from.x as i16 > 0;
        let corner = Pos { x: if right { 7 } else { 0 }, y: side.origin() };
        let landing = Pos { x: if right { mov.to.x - 1 } else { mov.to.x + 1 }, y: mov.to.y };
        assert(corner == castle_corner(mov, side));
        assert(landing == castle_landing(mov));
        if landing.is_on_board() && board.pieces.at(&corner).is_some() {
            board.pieces.move_piece(Move { from: corner, to: landing });
            assert(board.pieces.pending() =~= old(board).pieces.pending()
                + Step::Castling.spec_events(old(board).pieces@, mov, side));
        } else {
            assert(board.pieces.pending() =~= old(board).pieces.pending() + Seq::empty());
        }
    }
}

} // verus!
