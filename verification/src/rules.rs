//! The rules of the game as mathematics: which squares a piece threatens,
//! which moves are legal, and what a move does to a position.

use vstd::prelude::*;

use crate::board::history::PreviousMove;
use crate::board::pieces::{after_move, PieceUpdate, Position};
use crate::piece::step::Step;
use crate::piece::{BoardPiece, Piece};
use crate::util::pos::{pos, Move, Pos};
use crate::util::Side;

verus! {

/// A direction vector as `side` takes it: Black takes the opposite of White's.
pub open spec fn oriented(d: Pos, side: Side) -> Pos {
    match side {
        Side::White => d,
        Side::Black => pos(-d.x, -d.y),
    }
}

/// Whether the first `n - 1` squares from `from` in direction `v` are empty.
pub open spec fn path_clear(m: Position, from: Pos, v: Pos, n: int) -> bool {
    forall|k: int| 1 <= k < n ==> !m.dom().contains(#[trigger] from.stepped(v, k))
}

/// Whether `to` is reached from `from` by fewer than `limit` steps of `v`, by
/// one step if the vector is taken `once`, over empty squares only.
pub open spec fn ray_hits(m: Position, from: Pos, v: Pos, once: bool, limit: int, to: Pos) -> bool {
    exists|n: int|
        1 <= n < limit && (once ==> n == 1) && #[trigger] from.stepped(v, n) == to && path_clear(
            m,
            from,
            v,
            n,
        )
}

/// Whether `to` is reached from `from` along one of the first `count`
/// vectors of `dirs`.
pub open spec fn rays_hit(
    m: Position,
    from: Pos,
    dirs: Seq<Pos>,
    side: Side,
    once: bool,
    count: int,
    to: Pos,
) -> bool {
    exists|i: int|
        0 <= i < count && #[trigger] ray_hits(m, from, oriented(dirs[i], side), once, 8, to)
}

/// Whether the vectors of `step` lead a piece of `side` from `from` to `to`:
/// both squares lie on the board, and a slide passes over empty squares only.
/// A slide thus ends on the first occupied square at the latest.
pub open spec fn reach(step: Step, m: Position, side: Side, from: Pos, to: Pos) -> bool {
    &&& from.on_board()
    &&& to.on_board()
    &&& rays_hit(
        m,
        from,
        step.spec_directions(),
        side,
        step.spec_once(),
        step.spec_directions().len() as int,
        to,
    )
}

/// Whether a piece of `side` on `from` threatens `to` under the rule `step`.
pub open spec fn step_attacks(step: Step, m: Position, side: Side, from: Pos, to: Pos) -> bool {
    reach(step, m, side, from, to) && step.spec_occupancy(m, Move { from, to }, side)
}

/// Whether `piece`, standing on `from`, threatens `to`: the attack set of a
/// piece is the union of what the rules of its kind threaten.
pub open spec fn piece_attacks(m: Position, piece: BoardPiece, from: Pos, to: Pos) -> bool {
    exists|j: int|
        0 <= j < piece.kind.spec_targets().len() && step_attacks(
            #[trigger] piece.kind.spec_targets()[j],
            m,
            piece.side,
            from,
            to,
        )
}

/// Whether some piece of side `by` threatens the square `target`.
pub open spec fn attacked(m: Position, by: Side, target: Pos) -> bool {
    exists|q: Pos| #[trigger]
        m.dom().contains(q) && m[q].side == by && piece_attacks(m, m[q], q, target)
}

/// Whether no piece of the opponent of `side` threatens the square `p`.
pub open spec fn safe(m: Position, p: Pos, side: Side) -> bool {
    !attacked(m, side.spec_other(), p)
}

/// Whether a king of `side` stands on a square that the opponent threatens.
pub open spec fn in_check(m: Position, side: Side) -> bool {
    exists|k: Pos| #[trigger]
        m.dom().contains(k) && m[k].spec_is_king(side) && attacked(m, side.spec_other(), k)
}

/// Whether the rule `step` leads a piece of `side` from `from` to `to`: its
/// vectors reach the square and its condition holds there.
pub open spec fn step_reaches(
    step: Step,
    m: Position,
    h: Seq<PreviousMove>,
    side: Side,
    from: Pos,
    to: Pos,
) -> bool {
    reach(step, m, side, from, to) && step.spec_condition(m, h, Move { from, to }, side)
}

/// Whether a piece of `side` may not move to `to` because of the piece that
/// stands there: one of its own side, or a king.
pub open spec fn blocked(m: Position, side: Side, to: Pos) -> bool {
    m.dom().contains(to) && (m[to].side == side || m[to].kind == Piece::King)
}

/// Whether `piece` may make the move `mov` under the rule `step`: the rule
/// leads there, the destination is not blocked, and with the piece moved the
/// king of its side is not threatened.
pub open spec fn step_allows(
    step: Step,
    m: Position,
    h: Seq<PreviousMove>,
    piece: BoardPiece,
    mov: Move,
) -> bool {
    &&& step_reaches(step, m, h, piece.side, mov.from, mov.to)
    &&& !blocked(m, piece.side, mov.to)
    &&& !in_check(after_move(m, piece, mov), piece.side)
}

/// Whether `piece` may make the move `mov`: the legal-move set of a piece is
/// the union of what the rules of its kind allow.
pub open spec fn piece_moves(
    m: Position,
    h: Seq<PreviousMove>,
    piece: BoardPiece,
    mov: Move,
) -> bool {
    exists|j: int|
        0 <= j < piece.kind.spec_moves().len() && step_allows(
            #[trigger] piece.kind.spec_moves()[j],
            m,
            h,
            piece,
            mov,
        )
}

/// The first of `steps` that allows `piece` to make the move `mov`.
pub open spec fn first_rule(
    steps: Seq<Step>,
    m: Position,
    h: Seq<PreviousMove>,
    piece: BoardPiece,
    mov: Move,
) -> Option<Step>
    decreases steps.len(),
{
    if steps.len() == 0 {
        None
    } else if step_allows(steps[0], m, h, piece, mov) {
        Some(steps[0])
    } else {
        first_rule(steps.drop_first(), m, h, piece, mov)
    }
}

/// The rule under which `piece` makes the move `mov`, if it may make it.
pub open spec fn matching_rule(
    m: Position,
    h: Seq<PreviousMove>,
    piece: BoardPiece,
    mov: Move,
) -> Option<Step> {
    first_rule(piece.kind.spec_moves(), m, h, piece, mov)
}

/// Whether `side` may make the move `mov`: one of its pieces stands on the
/// origin and may make it.
pub open spec fn legal(m: Position, h: Seq<PreviousMove>, side: Side, mov: Move) -> bool {
    m.dom().contains(mov.from) && m[mov.from].side == side && piece_moves(m, h, m[mov.from], mov)
}

/// The position after the piece on `mov.from` has made the move `mov`: the
/// piece stands on `mov.to`, and the effect of its rule has followed. A move
/// that the piece may not make leaves the position as it is.
pub open spec fn applied(m: Position, h: Seq<PreviousMove>, mov: Move) -> Position {
    let piece = m[mov.from];
    match matching_rule(m, h, piece, mov) {
        Some(step) => step.spec_on_move(after_move(m, piece, mov), mov, piece.side),
        None => m,
    }
}

/// What an observer of the position is told when the piece on `mov.from`
/// makes the move `mov`: that the piece has left its square and stands on
/// `mov.to`, and then what the effect of its rule changes.
pub open spec fn announced(m: Position, h: Seq<PreviousMove>, mov: Move) -> Seq<PieceUpdate> {
    let piece = m[mov.from];
    match matching_rule(m, h, piece, mov) {
        Some(step) => seq![
            PieceUpdate::Update(mov.from, None),
            PieceUpdate::Update(mov.to, Some(piece)),
        ] + step.spec_events(after_move(m, piece, mov), mov, piece.side),
        None => Seq::empty(),
    }
}

/// `first_rule` finds a rule exactly when one of the rules allows the move,
/// and the rule it finds is the first that does.
pub proof fn lemma_first_rule(
    steps: Seq<Step>,
    m: Position,
    h: Seq<PreviousMove>,
    piece: BoardPiece,
    mov: Move,
)
    ensures
        first_rule(steps, m, h, piece, mov) is Some <==> exists|j: int|
            0 <= j < steps.len() && step_allows(#[trigger] steps[j], m, h, piece, mov),
        first_rule(steps, m, h, piece, mov) matches Some(step) ==> exists|j: int|
            0 <= j < steps.len() && #[trigger] steps[j] == step && step_allows(
                step,
                m,
                h,
                piece,
                mov,
            ) && forall|k: int|
                0 <= k < j ==> !step_allows(#[trigger] steps[k], m, h, piece, mov),
    decreases steps.len(),
{
    if steps.len() == 0 {
    } else if step_allows(steps[0], m, h, piece, mov) {
        assert(steps[0] == steps[0]);
    } else {
        let rest = steps.drop_first();
        lemma_first_rule(rest, m, h, piece, mov);
        assert forall|j: int| 0 <= j < rest.len() implies rest[j] == steps[j + 1] by {}
        if exists|j: int|
            0 <= j < steps.len() && step_allows(#[trigger] steps[j], m, h, piece, mov) {
            let j = choose|j: int|
                0 <= j < steps.len() && step_allows(#[trigger] steps[j], m, h, piece, mov);
            assert(step_allows(rest[j - 1], m, h, piece, mov));
        }
        if first_rule(rest, m, h, piece, mov) is Some {
            let step = first_rule(rest, m, h, piece, mov)->0;
            let j = choose|j: int|
                0 <= j < rest.len() && #[trigger] rest[j] == step && step_allows(
                    step,
                    m,
                    h,
                    piece,
                    mov,
                ) && forall|k: int|
                    0 <= k < j ==> !step_allows(#[trigger] rest[k], m, h, piece, mov);
            assert(steps[j + 1] == step);
            assert forall|k: int| 0 <= k < j + 1 implies !step_allows(
                #[trigger] steps[k],
                m,
                h,
                piece,
                mov,
            ) by {
                if k > 0 {
                    assert(!step_allows(rest[k - 1], m, h, piece, mov));
                }
            }
        }
    }
}

/// A piece may make a move exactly when some rule of its kind matches it.
pub proof fn lemma_matching_rule(m: Position, h: Seq<PreviousMove>, piece: BoardPiece, mov: Move)
    ensures
        matching_rule(m, h, piece, mov) is Some <==> piece_moves(m, h, piece, mov),
{
    lemma_first_rule(piece.kind.spec_moves(), m, h, piece, mov);
}

} // verus!
