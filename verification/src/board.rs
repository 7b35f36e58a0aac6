//! The board: the position, the log of moves, and whose turn it is.

use vstd::prelude::*;

pub mod history;
pub mod pieces;

use crate::theorems::the_game_begins_without_check;
use crate::piece::step::PieceStep;
use crate::piece::BoardPiece;
use crate::rules::{
    announced, applied, in_check, legal, lemma_first_rule, matching_rule, piece_moves,
};
use crate::util::pos::{Move, Pos};
use crate::util::Side;
use history::{BoardHistory, PreviousMove};
use pieces::{
    initial_position, lemma_square_index, placements, removals, square_at, PieceUpdate, Pieces,
    Position,
};

verus! {

/// Whose turn it is, and the number of the move.
#[derive(Clone, Copy, Debug, PartialEq, Eq, PartialOrd, Ord, Hash, Structural)]
pub struct Turn {
    pub side: Side,
    pub no: usize,
}

/// The turn, and whether the side to move is in check.
pub struct State {
    pub turn: Turn,
    /// The moves that the side to move may make if it is in check.
    pub check: Option<Vec<Move>>,
}

/// A game: the position, the state of play and the log of moves.
pub struct Board {
    pub pieces: Pieces,
    pub state: State,
    pub history: BoardHistory,
}

/// Why a move was not made.
#[derive(Debug, Clone, Copy, PartialEq, Eq, Structural)]
pub enum MoveError {
    /// The piece on the origin belongs to the side that is not to move.
    WrongSide,
    /// The origin is empty.
    NoPiece,
    /// No rule of the piece allows the move.
    InvalidMove,
    /// The side to move is checkmated; only a reset helps.
    Checkmate,
}

/// Whether `c` is the check state of `side` in the position `m` after the
/// moves `h`: it holds a list exactly when `side` is in check, and the list
/// holds exactly the moves that `side` may make, each of them once. An empty
/// list is checkmate.
pub open spec fn check_state(
    c: Option<Seq<Move>>,
    m: Position,
    h: Seq<PreviousMove>,
    side: Side,
) -> bool {
    &&& c is Some <==> in_check(m, side)
    &&& c matches Some(moves) ==> moves.no_duplicates() && forall|mv: Move| #[trigger]
        moves.contains(mv) <==> legal(m, h, side, mv)
}

/// What becomes of the request to make the move `mov` when `side` is to
/// move, the check state is `c`, the position `m` and the log `h`.
pub open spec fn verdict(
    c: Option<Seq<Move>>,
    m: Position,
    h: Seq<PreviousMove>,
    side: Side,
    mov: Move,
) -> Result<(), MoveError> {
    if c is Some && c->0.len() == 0 {
        Err(MoveError::Checkmate)
    } else if !m.dom().contains(mov.from) {
        Err(MoveError::NoPiece)
    } else if m[mov.from].side != side {
        Err(MoveError::WrongSide)
    } else if !piece_moves(m, h, m[mov.from], mov) {
        Err(MoveError::InvalidMove)
    } else {
        Ok(())
    }
}

/// The sides alternate, and the number of the move goes up by one with every
/// pair of turns: it goes up when Black has moved.
pub proof fn turns_alternate(turn: Turn)
    requires
        turn.no < usize::MAX,
    ensures
        turn.spec_next().side == turn.side.spec_other(),
        turn.spec_next().side != turn.side,
        turn.spec_next().no == turn.no + if turn.side == Side::Black {
            1int
        } else {
            0int
        },
        turn.spec_next().spec_next() == (Turn { side: turn.side, no: (turn.no + 1) as usize }),
{
}

/// Where the check state is that of the side to move, a move is refused as
/// checkmate exactly when that side is in check and has no legal move, and
/// a move is made exactly when it is legal.
pub proof fn verdict_on_a_consistent_board(
    c: Option<Seq<Move>>,
    m: Position,
    h: Seq<PreviousMove>,
    side: Side,
    mov: Move,
)
    requires
        check_state(c, m, h, side),
    ensures
        verdict(c, m, h, side, mov) == Err::<(), MoveError>(MoveError::Checkmate) <==> in_check(
            m,
            side,
        ) && forall|mv: Move| !legal(m, h, side, mv),
        verdict(c, m, h, side, mov) is Ok <==> legal(m, h, side, mov),
{
    if c is Some {
        let moves = c->0;
        if moves.len() > 0 {
            assert(moves.contains(moves[0]));
        } else {
            assert forall|mv: Move| !legal(m, h, side, mv) by {
                assert(!moves.contains(mv));
            }
        }
        if legal(m, h, side, mov) {
            assert(moves.contains(mov));
        }
        if forall|mv: Move| !legal(m, h, side, mv) {
            assert(moves.len() == 0);
        }
    }
}

impl Turn {
    /// The turn that follows this one: the other side is to move, and the
    /// number of the move goes up when that side is White.
    pub open spec fn spec_next(&self) -> Turn {
        Turn {
            side: self.side.spec_other(),
            no: if self.side == Side::Black {
                (self.no + 1) as usize
            } else {
                self.no
            },
        }
    }

    /// Passes the turn to the other side.
    pub fn increment(&mut self)
        requires
            old(self).no < usize::MAX,
        ensures
            *final(self) == old(self).spec_next(),
    {
        self.side = self.side.other();
        if self.side == Side::White {
            self.no += 1;
        }
    }
}

impl Default for Turn {
    fn default() -> (r: Turn)
        ensures
            r == (Turn { side: Side::White, no: 0 }),
    {
        Turn { side: Side::White, no: 0 }
    }
}

impl State {
    /// The check state: a list of the moves that the side to move may make
    /// if it is in check, and nothing if it is not.
    pub open spec fn spec_check(&self) -> Option<Seq<Move>> {
        match self.check {
            Some(moves) => Some(moves@),
            None => None,
        }
    }

    /// The moves that the side to move may make if it is in check. An empty
    /// list is checkmate.
    pub fn check(&self) -> (r: Option<&Vec<Move>>)
        ensures
            r is Some == self.spec_check() is Some,
            r is Some ==> r->0@ == self.spec_check()->0,
    {
        self.check.as_ref()
    }

    /// Goes back to the state in which a game begins.
    pub fn reset(&mut self)
        ensures
            final(self).turn == (Turn { side: Side::White, no: 0 }),
            final(self).spec_check() is None,
    {
        self.turn = Turn::default();
        self.check = None;
    }
}

impl Default for State {
    fn default() -> (r: State)
        ensures
            r.turn == (Turn { side: Side::White, no: 0 }),
            r.spec_check() is None,
    {
        State { turn: Turn::default(), check: None }
    }
}

impl Default for Board {
    fn default() -> (r: Board)
        ensures
            r.pieces@ == initial_position(),
            r.pieces.pending() == Seq::<PieceUpdate>::empty(),
            r.history@ == Seq::<PreviousMove>::empty(),
            r.state.turn == (Turn { side: Side::White, no: 0 }),
            r.state.spec_check() is None,
            r.consistent(),
    {
        proof {
            the_game_begins_without_check(Side::White);
        }
        Board {
            pieces: Pieces::default(),
            state: State::default(),
            history: BoardHistory::default(),
        }
    }
}

/// Adds to `out` the moves from `from` to each of the squares `tos`.
fn append_moves(out: &mut Vec<Move>, from: Pos, tos: &Vec<Pos>)
    requires
        old(out)@.no_duplicates(),
        tos@.no_duplicates(),
        forall|mv: Move| old(out)@.contains(mv) ==> mv.from != from,
    ensures
        forall|mv: Move| #[trigger]
            final(out)@.contains(mv) <==> old(out)@.contains(mv) || (mv.from == from
                && tos@.contains(mv.to)),
        final(out)@.no_duplicates(),
{
    let ghost before = out@;
    let mut t: usize = 0;
    while t < tos.len()
        invariant
            t <= tos.len(),
            out@.no_duplicates(),
            tos@.no_duplicates(),
            forall|mv: Move| before.contains(mv) ==> mv.from != from,
            forall|mv: Move| #[trigger]
                out@.contains(mv) <==> before.contains(mv) || (mv.from == from && tos@.take(
                    t as int,
                ).contains(mv.to)),
        decreases tos.len() - t,
    {
        let ghost filled = out@;
        let to = tos[t];
        proof {
            if tos@.take(t as int).contains(to) {
                let k = choose|k: int| 0 <= k < t && tos@.take(t as int)[k] == to;
                assert(tos@[k] == tos@[t as int]);
            }
            crate::seqs::lemma_push_fresh(filled, Move { from, to });
        }
        out.push(Move::new(from, to));
        proof {
            assert(tos@.take(t + 1) =~= tos@.take(t as int).push(to));
            assert forall|mv: Move| #[trigger]
                out@.contains(mv) <==> before.contains(mv) || (mv.from == from && tos@.take(
                    t + 1,
                ).contains(mv.to)) by {
                vstd::seq_lib::lemma_seq_contains_after_push(filled, Move { from, to }, mv);
                vstd::seq_lib::lemma_seq_contains_after_push(tos@.take(t as int), to, mv.to);
            }
        }
        t += 1;
    }
    assert(tos@.take(t as int) =~= tos@);
}

impl Board {
    /// Whether the check state kept in the board is that of the side to
    /// move in the position of the board.
    pub open spec fn consistent(&self) -> bool {
        check_state(self.state.spec_check(), self.pieces@, self.history@, self.state.turn.side)
    }

    /// Whether `side` is in check, and if so, the moves that it may make. An
    /// empty list is checkmate.
    pub fn check(&self, side: Side) -> (r: Option<Vec<Move>>)
        ensures
            check_state(
                match r {
                    Some(moves) => Some(moves@),
                    None => None,
                },
                self.pieces@,
                self.history@,
                side,
            ),
    {
        if !self.pieces.in_check(side) {
            return None;
        }
        let ghost m = self.pieces@;
        let ghost h = self.history@;
        let mut out: Vec<Move> = Vec::new();
        let mut i: usize = 0;
        while i < 64
            invariant
                i <= 64,
                m == self.pieces@,
                h == self.history@,
                out@.no_duplicates(),
                forall|mv: Move| #[trigger]
                    out@.contains(mv) <==> mv.from.on_board() && mv.from.index() < i && legal(
                        m,
                        h,
                        side,
                        mv,
                    ),
            decreases 64 - i,
        {
            let q = square_at(i);
            let ghost before = out@;
            match self.pieces.at(&q) {
                Some(piece) => {
                    if piece.side == side {
                        let tos = piece.moves(self, q);
                        append_moves(&mut out, q, &tos);
                        proof {
                            assert forall|mv: Move| #[trigger]
                                out@.contains(mv) <==> mv.from.on_board() && mv.from.index() < i + 1
                                    && legal(m, h, side, mv) by {
                                if mv.from == q {
                                    assert(mv == Move { from: q, to: mv.to });
                                    assert(tos@.contains(mv.to) <==> piece_moves(m, h, *piece, mv));
                                }
                                if mv.from.on_board() {
                                    lemma_square_index(mv.from);
                                }
                            }
                        }
                    } else {
                        proof {
                            assert forall|mv: Move|
                                mv.from.on_board() && mv.from.index() == i implies !legal(
                                m,
                                h,
                                side,
                                mv,
                            ) by {
                                lemma_square_index(mv.from);
                            }
                        }
                    }
                },
                None => {
                    proof {
                        assert forall|mv: Move|
                            mv.from.on_board() && mv.from.index() == i implies !legal(
                            m,
                            h,
                            side,
                            mv,
                        ) by {
                            lemma_square_index(mv.from);
                        }
                    }
                },
            }
            i += 1;
        }
        proof {
            self.pieces.lemma_on_board();
            assert forall|mv: Move| #[trigger] out@.contains(mv) <==> legal(m, h, side, mv) by {
                if legal(m, h, side, mv) {
                    lemma_square_index(mv.from);
                }
            }
        }
        Some(out)
    }

    /// Makes the move `mov` if the side to move may make it, and says why
    /// not otherwise. A move that is not made changes nothing.
    pub fn move_piece(&mut self, mov: Move) -> (r: Result<(), MoveError>)
        requires
            old(self).state.turn.no < usize::MAX,
        ensures
            r == verdict(
                old(self).state.spec_check(),
                old(self).pieces@,
                old(self).history@,
                old(self).state.turn.side,
                mov,
            ),
            r is Err ==> *final(self) == *old(self),
            r is Ok ==> {
                let m = old(self).pieces@;
                let h = old(self).history@;
                &&& final(self).pieces@ == applied(m, h, mov)
                &&& final(self).pieces.pending() == old(self).pieces.pending() + announced(
                    m,
                    h,
                    mov,
                )
                &&& final(self).history@ == h.push(PreviousMove { mov, taken: m.get(mov.to) })
                &&& final(self).state.turn == old(self).state.turn.spec_next()
                &&& final(self).consistent()
            },
    {
        let checkmate = match &self.state.check {
            Some(moves) => moves.len() == 0,
            None => false,
        };
        if checkmate {
            return Err(MoveError::Checkmate);
        }
        let piece: BoardPiece = match self.pieces.at(&mov.from) {
            Some(piece) => *piece,
            None => {
                return Err(MoveError::NoPiece);
            },
        };
        if piece.side != self.state.turn.side {
            return Err(MoveError::WrongSide);
        }
        proof {
            crate::rules::lemma_matching_rule(self.pieces@, self.history@, piece, mov);
            lemma_first_rule(piece.kind.spec_moves(), self.pieces@, self.history@, piece, mov);
        }
        match piece.can_move(self, mov) {
            Some(step) => {
                let taken = self.pieces.move_piece(mov);
                step.on_move(self, mov, piece.side);
                assert(self.pieces.pending() =~= old(self).pieces.pending() + announced(
                    old(self).pieces@,
                    old(self).history@,
                    mov,
                ));
                self.history.add(mov, taken);
                self.state.check = self.check(piece.side.other());
                self.state.turn.increment();
                Ok(())
            },
            None => Err(MoveError::InvalidMove),
        }
    }

    /// Sets up the initial position and forgets the moves made.
    pub fn reset(&mut self)
        ensures
            final(self).pieces@ == initial_position(),
            final(self).pieces.pending() == old(self).pieces.pending() + removals(old(self).pieces@)
                + placements(initial_position()),
            final(self).history@ == Seq::<PreviousMove>::empty(),
            final(self).state.turn == (Turn { side: Side::White, no: 0 }),
            final(self).state.spec_check() is None,
            final(self).consistent(),
    {
        proof {
            the_game_begins_without_check(Side::White);
        }
        self.state.reset();
        self.pieces.reset();
        self.history.reset();
    }
}

} // verus!
