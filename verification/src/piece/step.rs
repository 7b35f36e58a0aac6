//! Movement rules: the steps that a piece may take.
//!
//! A rule has a set of direction vectors, taken once or repeated until the way
//! is blocked, a condition that the destination must meet, and an effect that
//! follows the move. `Step` names the rules and says what each of them is.

use vstd::prelude::*;

pub mod king;
pub mod pawn;

use crate::board::history::{lineage, PreviousMove};
use crate::board::pieces::{PieceUpdate, Pieces, Position};
use crate::board::Board;
use crate::piece::Piece;
use crate::rules::safe;
use crate::util::pos::{pos, Move, Pos};
use crate::util::Side;

verus! {

/// The movement rules.
#[derive(Debug, Clone, Copy, PartialEq, Eq, Hash, Structural)]
pub enum Step {
    /// A pawn's step straight ahead.
    SingleMove,
    /// A pawn's double step from its starting rank.
    DoubleMove,
    /// A pawn's diagonal capture of a piece of the opponent.
    PawnTake,
    /// A pawn's capture in passing.
    EnPassant,
    /// A slide along a rank or a file.
    Rook,
    /// A slide along a diagonal.
    Bishop,
    /// A slide along a rank, a file or a diagonal.
    Queen,
    /// A knight's jump.
    Knight,
    /// The squares next to a king, which it threatens.
    KingTarget,
    /// A king's step to a square that the opponent does not threaten.
    KingMove,
    /// A king's castling move.
    Castling,
}

/// The four straight directions.
pub open spec fn straight() -> Seq<Pos> {
    seq![pos(0, 1), pos(1, 0), pos(0, -1), pos(-1, 0)]
}

/// The four diagonal directions.
pub open spec fn diagonal() -> Seq<Pos> {
    seq![pos(1, 1), pos(1, -1), pos(-1, -1), pos(-1, 1)]
}

/// The eight jumps of a knight.
pub open spec fn jumps() -> Seq<Pos> {
    seq![
        pos(1, 2),
        pos(2, 1),
        pos(2, -1),
        pos(1, -2),
        pos(-1, -2),
        pos(-2, -1),
        pos(-2, 1),
        pos(-1, 2),
    ]
}

/// The square behind the destination of a pawn's move, seen from the mover:
/// where a pawn stands that is captured in passing.
pub open spec fn passed_square(mov: Move, side: Side) -> Pos {
    pos(mov.to.x as int, mov.to.y - side.spec_forward())
}

/// The number of files that a castling king moves, negative towards file a.
pub open spec fn castle_offset(mov: Move) -> int {
    mov.to.x - mov.from.x
}

/// The direction along the rank in which a castling king moves.
pub open spec fn castle_direction(mov: Move) -> int {
    if castle_offset(mov) > 0 {
        1
    } else {
        -1
    }
}

/// The number of squares that a castling king crosses, its destination included.
pub open spec fn castle_length(mov: Move) -> int {
    if castle_offset(mov) > 0 {
        castle_offset(mov)
    } else {
        -castle_offset(mov)
    }
}

/// The corner in which the rook stands that takes part in a castling move.
pub open spec fn castle_corner(mov: Move, side: Side) -> Pos {
    pos(if castle_offset(mov) > 0 { 7 } else { 0 }, side.spec_origin())
}

/// The `i`-th square that a castling king crosses.
pub open spec fn castle_crossing(mov: Move, i: int) -> Pos {
    if castle_offset(mov) > 0 {
        pos(mov.from.x + i, mov.from.y as int)
    } else {
        pos(mov.from.x - i, mov.from.y as int)
    }
}

/// The square on which the rook lands: next to the king's destination, on
/// the side that the king came from.
pub open spec fn castle_landing(mov: Move) -> Pos {
    pos(mov.to.x - castle_direction(mov), mov.to.y as int)
}

/// The position `m` with the piece on `mov.to` turned into a queen if that
/// square lies on the home rank of the opponent of `side`.
pub open spec fn promoted(m: Position, mov: Move, side: Side) -> Position {
    if m.dom().contains(mov.to) && mov.to.y == side.spec_other().spec_origin() {
        m.insert(mov.to, crate::piece::BoardPiece { kind: Piece::Queen, side: m[mov.to].side })
    } else {
        m
    }
}

/// What an observer is told when `promoted` changes the position.
pub open spec fn promotion_events(m: Position, mov: Move, side: Side) -> Seq<PieceUpdate> {
    if m.dom().contains(mov.to) && mov.to.y == side.spec_other().spec_origin() {
        seq![PieceUpdate::Modify(mov.to, Piece::Queen)]
    } else {
        Seq::empty()
    }
}

/// A movement rule as the board uses it.
pub trait PieceStep {
    /// The rule that this value stands for.
    spec fn rule(&self) -> Step;

    /// Whether the rule takes its vectors once.
    fn once(&self) -> (r: bool)
        ensures
            r == self.rule().spec_once(),
    ;

    /// The direction vectors of the rule, as White takes them.
    fn directions(&self) -> (r: Vec<Pos>)
        ensures
            r@ == self.rule().spec_directions(),
    ;

    /// Whether `side` may make the move `mov` under the rule, as far as the
    /// destination alone decides.
    fn condition(&self, board: &Board, mov: Move, side: Side) -> (r: bool)
        ensures
            r == self.rule().spec_condition(board.pieces@, board.history@, mov, side),
    ;

    /// Carries out the effect of the rule, after the moving piece has
    /// arrived on `mov.to`.
    fn on_move(&self, board: &mut Board, mov: Move, side: Side)
        ensures
            final(board).pieces@ == self.rule().spec_on_move(old(board).pieces@, mov, side),
            final(board).pieces.pending() == old(board).pieces.pending() + self.rule().spec_events(
                old(board).pieces@,
                mov,
                side,
            ),
            final(board).history == old(board).history,
            final(board).state == old(board).state,
    ;
}

/// Whether a piece stands on the square.
pub fn occupied(board: &Board, mov: Pos) -> (r: bool)
    ensures
        r == board.pieces@.dom().contains(mov),
{
    board.pieces.at(&mov).is_some()
}

/// A slide: along ranks and files if `DIR`, along diagonals if `DIAG`.
pub struct MultiStep<const DIR: bool, const DIAG: bool>;

/// The rook's slide.
#[allow(non_upper_case_globals)]
pub const RookStep: MultiStep<true, false> = MultiStep;

/// The bishop's slide.
#[allow(non_upper_case_globals)]
pub const BishopStep: MultiStep<false, true> = MultiStep;

/// The queen's slide.
#[allow(non_upper_case_globals)]
pub const QueenStep: MultiStep<true, true> = MultiStep;

/// The knight's jump.
pub struct KnightStep;

impl PieceStep for MultiStep<true, false> {
    open spec fn rule(&self) -> Step {
        Step::Rook
    }

    fn once(&self) -> (r: bool) {
        Step::Rook.single()
    }

    fn directions(&self) -> (r: Vec<Pos>) {
        Step::Rook.vectors()
    }

    fn condition(&self, _board: &Board, mov: Move, _side: Side) -> (r: bool) {
        mov.from.is_on_board() && mov.to.is_on_board()
    }

    fn on_move(&self, _board: &mut Board, _mov: Move, _side: Side) {
    }
}

impl PieceStep for MultiStep<false, true> {
    open spec fn rule(&self) -> Step {
        Step::Bishop
    }

    fn once(&self) -> (r: bool) {
        Step::Bishop.single()
    }

    fn directions(&self) -> (r: Vec<Pos>) {
        Step::Bishop.vectors()
    }

    fn condition(&self, _board: &Board, mov: Move, _side: Side) -> (r: bool) {
        mov.from.is_on_board() && mov.to.is_on_board()
    }

    fn on_move(&self, _board: &mut Board, _mov: Move, _side: Side) {
    }
}

impl PieceStep for MultiStep<true, true> {
    open spec fn rule(&self) -> Step {
        Step::Queen
    }

    fn once(&self) -> (r: bool) {
        Step::Queen.single()
    }

    fn directions(&self) -> (r: Vec<Pos>) {
        Step::Queen.vectors()
    }

    fn condition(&self, _board: &Board, mov: Move, _side: Side) -> (r: bool) {
        mov.from.is_on_board() && mov.to.is_on_board()
    }

    fn on_move(&self, _board: &mut Board, _mov: Move, _side: Side) {
    }
}

impl PieceStep for KnightStep {
    open spec fn rule(&self) -> Step {
        Step::Knight
    }

    fn once(&self) -> (r: bool) {
        Step::Knight.single()
    }

    fn directions(&self) -> (r: Vec<Pos>) {
        Step::Knight.vectors()
    }

    fn condition(&self, _board: &Board, mov: Move, _side: Side) -> (r: bool) {
        mov.from.is_on_board() && mov.to.is_on_board()
    }

    fn on_move(&self, _board: &mut Board, _mov: Move, _side: Side) {
    }
}

impl PieceStep for Step {
    open spec fn rule(&self) -> Step {
        *self
    }

    fn once(&self) -> (r: bool) {
        self.single()
    }

    fn directions(&self) -> (r: Vec<Pos>) {
        self.vectors()
    }

    fn condition(&self, board: &Board, mov: Move, side: Side) -> (r: bool) {
        match self {
            Step::SingleMove => pawn::SingleMove.condition(board, mov, side),
            Step::DoubleMove => pawn::DoubleMove.condition(board, mov, side),
            Step::PawnTake => pawn::PawnTake.condition(board, mov, side),
            Step::EnPassant => pawn::EnPassant.condition(board, mov, side),
            Step::Rook => RookStep.condition(board, mov, side),
            Step::Bishop => BishopStep.condition(board, mov, side),
            Step::Queen => QueenStep.condition(board, mov, side),
            Step::Knight => KnightStep.condition(board, mov, side),
            Step::KingTarget => king::KingTarget.condition(board, mov, side),
            Step::KingMove => king::KingMove.condition(board, mov, side),
            Step::Castling => king::Castling.condition(board, mov, side),
        }
    }

    fn on_move(&self, board: &mut Board, mov: Move, side: Side) {
        match self {
            Step::SingleMove => pawn::SingleMove.on_move(board, mov, side),
            Step::DoubleMove => pawn::DoubleMove.on_move(board, mov, side),
            Step::PawnTake => pawn::PawnTake.on_move(board, mov, side),
            Step::EnPassant => pawn::EnPassant.on_move(board, mov, side),
            Step::Rook => RookStep.on_move(board, mov, side),
            Step::Bishop => BishopStep.on_move(board, mov, side),
            Step::Queen => QueenStep.on_move(board, mov, side),
            Step::Knight => KnightStep.on_move(board, mov, side),
            Step::KingTarget => king::KingTarget.on_move(board, mov, side),
            Step::KingMove => king::KingMove.on_move(board, mov, side),
            Step::Castling => king::Castling.on_move(board, mov, side),
        }
    }
}

impl Step {
    /// Whether the rule takes its vectors once; the others repeat them until
    /// the way is blocked.
    pub open spec fn spec_once(&self) -> bool {
        !(self is Rook || self is Bishop || self is Queen)
    }

    /// The direction vectors of the rule, as White takes them. Black takes
    /// their opposites.
    pub open spec fn spec_directions(&self) -> Seq<Pos> {
        match self {
            Step::SingleMove => seq![pos(0, 1)],
            Step::DoubleMove => seq![pos(0, 2)],
            Step::PawnTake => seq![pos(-1, 1), pos(1, 1)],
            Step::EnPassant => seq![pos(-1, 1), pos(1, 1)],
            Step::Rook => straight(),
            Step::Bishop => diagonal(),
            Step::Queen => straight() + diagonal(),
            Step::Knight => jumps(),
            Step::KingTarget => straight() + diagonal(),
            Step::KingMove => straight() + diagonal(),
            Step::Castling => seq![pos(-3, 0), pos(-2, 0), pos(2, 0)],
        }
    }

    /// What the rule asks of the squares of the position.
    pub open spec fn spec_occupancy(&self, m: Position, mov: Move, side: Side) -> bool {
        match self {
            Step::SingleMove => !m.dom().contains(mov.to),
            Step::DoubleMove => {
                &&& mov.from.y == side.spec_offset(1)
                &&& !m.dom().contains(pos(mov.from.x as int, mov.from.y + side.spec_forward()))
                &&& !m.dom().contains(mov.to)
            },
            Step::PawnTake => m.dom().contains(mov.to) && m[mov.to].side == side.spec_other(),
            Step::EnPassant => {
                let behind = passed_square(mov, side);
                &&& !m.dom().contains(mov.to)
                &&& m.dom().contains(behind)
                &&& m[behind].side == side.spec_other()
                &&& m[behind].kind == Piece::Pawn
            },
            Step::Castling => {
                let corner = castle_corner(mov, side);
                &&& castle_offset(mov) != 0
                &&& m.dom().contains(corner)
                &&& m[corner].kind == Piece::Rook
                &&& forall|i: int|
                    1 <= i <= castle_length(mov) ==> !m.dom().contains(
                        #[trigger] castle_crossing(mov, i),
                    )
            },
            _ => true,
        }
    }

    /// What the rule asks of the moves made so far.
    pub open spec fn spec_history(&self, h: Seq<PreviousMove>, mov: Move, side: Side) -> bool {
        match self {
            Step::EnPassant => lineage(h, passed_square(mov, side)).len() == 2,
            Step::Castling => {
                &&& lineage(h, mov.from).len() == 1
                &&& lineage(h, castle_corner(mov, side)).len() == 1
            },
            _ => true,
        }
    }

    /// What the rule asks of the squares that the opponent threatens.
    pub open spec fn spec_safety(&self, m: Position, mov: Move, side: Side) -> bool {
        match self {
            Step::KingMove => safe(m, mov.to, side),
            Step::Castling => {
                &&& safe(m, mov.from, side)
                &&& forall|i: int|
                    1 <= i <= castle_length(mov) ==> safe(
                        m,
                        #[trigger] castle_crossing(mov, i),
                        side,
                    )
            },
            _ => true,
        }
    }

    /// The condition of the rule: whether `side` may make the move `mov`
    /// under it, as far as the destination alone decides. A move that leaves
    /// the board meets no condition.
    pub open spec fn spec_condition(
        &self,
        m: Position,
        h: Seq<PreviousMove>,
        mov: Move,
        side: Side,
    ) -> bool {
        &&& mov.from.on_board()
        &&& mov.to.on_board()
        &&& self.spec_occupancy(m, mov, side)
        &&& self.spec_history(h, mov, side)
        &&& self.spec_safety(m, mov, side)
    }

    /// The effect of the rule: the position that follows from `m`, in which
    /// the moving piece already stands on `mov.to`.
    pub open spec fn spec_on_move(&self, m: Position, mov: Move, side: Side) -> Position {
        if !mov.to.on_board() {
            m
        } else {
            match self {
                Step::SingleMove => promoted(m, mov, side),
                Step::DoubleMove => promoted(m, mov, side),
                Step::PawnTake => promoted(m, mov, side),
                Step::EnPassant => promoted(m.remove(passed_square(mov, side)), mov, side),
                Step::Castling => {
                    let corner = castle_corner(mov, side);
                    let landing = castle_landing(mov);
                    if m.dom().contains(corner) && landing.on_board() {
                        m.remove(corner).insert(landing, m[corner])
                    } else {
                        m
                    }
                },
                _ => m,
            }
        }
    }

    /// What an observer of the position is told of the effect of the rule.
    pub open spec fn spec_events(&self, m: Position, mov: Move, side: Side) -> Seq<PieceUpdate> {
        if !mov.to.on_board() {
            Seq::empty()
        } else {
            match self {
                Step::SingleMove => promotion_events(m, mov, side),
                Step::DoubleMove => promotion_events(m, mov, side),
                Step::PawnTake => promotion_events(m, mov, side),
                Step::EnPassant => {
                    let behind = passed_square(mov, side);
                    let removal = if m.dom().contains(behind) {
                        seq![PieceUpdate::Update(behind, None)]
                    } else {
                        Seq::empty()
                    };
                    removal + promotion_events(m.remove(behind), mov, side)
                },
                Step::Castling => {
                    let corner = castle_corner(mov, side);
                    let landing = castle_landing(mov);
                    if m.dom().contains(corner) && landing.on_board() {
                        seq![
                            PieceUpdate::Update(corner, None),
                            PieceUpdate::Update(landing, Some(m[corner])),
                        ]
                    } else {
                        Seq::empty()
                    }
                },
                _ => Seq::empty(),
            }
        }
    }

    /// No direction vector is longer than three squares, and none is zero.
    pub proof fn lemma_directions(&self)
        ensures
            forall|i: int|
                0 <= i < self.spec_directions().len() ==> {
                    let d = #[trigger] self.spec_directions()[i];
                    &&& -3 <= d.x <= 3
                    &&& -3 <= d.y <= 3
                    &&& (d.x != 0 || d.y != 0)
                },
    {
    }

    /// Whether the move stays on the board and the squares of the position
    /// allow it under this rule.
    pub fn occupancy(&self, pieces: &Pieces, mov: Move, side: Side) -> (r: bool)
        ensures
            r == (mov.from.on_board() && mov.to.on_board() && self.spec_occupancy(
                pieces@,
                mov,
                side,
            )),
    {
        if !mov.from.is_on_board() || !mov.to.is_on_board() {
            return false;
        }
        match self {
            Step::SingleMove => pieces.at(&mov.to).is_none(),
            Step::DoubleMove => pawn::DoubleMove::way_free(pieces, mov, side),
            Step::PawnTake => pawn::PawnTake::enemy_there(pieces, mov, side),
            Step::EnPassant => pawn::EnPassant::pawn_passed(pieces, mov, side),
            Step::Castling => king::Castling::way_free(pieces, mov, side),
            _ => true,
        }
    }

    /// Whether the rule takes its vectors once.
    pub fn single(&self) -> (r: bool)
        ensures
            r == self.spec_once(),
    {
        match self {
            Step::Rook | Step::Bishop | Step::Queen => false,
            _ => true,
        }
    }

    /// The direction vectors of the rule, as White takes them.
    pub fn vectors(&self) -> (r: Vec<Pos>)
        ensures
            r@ == self.spec_directions(),
    {
        let r = match self {
            Step::SingleMove => vec![Pos { x: 0, y: 1 }],
            Step::DoubleMove => vec![Pos { x: 0, y: 2 }],
            Step::PawnTake | Step::EnPassant => vec![Pos { x: -1, y: 1 }, Pos { x: 1, y: 1 }],
            Step::Rook => vec![
                Pos { x: 0, y: 1 },
                Pos { x: 1, y: 0 },
                Pos { x: 0, y: -1 },
                Pos { x: -1, y: 0 },
            ],
            Step::Bishop => vec![
                Pos { x: 1, y: 1 },
                Pos { x: 1, y: -1 },
                Pos { x: -1, y: -1 },
                Pos { x: -1, y: 1 },
            ],
            Step::Queen | Step::KingTarget | Step::KingMove => vec![
                Pos { x: 0, y: 1 },
                Pos { x: 1, y: 0 },
                Pos { x: 0, y: -1 },
                Pos { x: -1, y: 0 },
                Pos { x: 1, y: 1 },
                Pos { x: 1, y: -1 },
                Pos { x: -1, y: -1 },
                Pos { x: -1, y: 1 },
            ],
            Step::Knight => vec![
                Pos { x: 1, y: 2 },
                Pos { x: 2, y: 1 },
                Pos { x: 2, y: -1 },
                Pos { x: 1, y: -2 },
                Pos { x: -1, y: -2 },
                Pos { x: -2, y: -1 },
                Pos { x: -2, y: 1 },
                Pos { x: -1, y: 2 },
            ],
            Step::Castling => vec![Pos { x: -3, y: 0 }, Pos { x: -2, y: 0 }, Pos { x: 2, y: 0 }],
        };
        assert(r@ =~= self.spec_directions());
        r
    }
}

} // verus!
