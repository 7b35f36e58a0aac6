//! What holds of the rules, proved from their definitions.

use vstd::prelude::*;

use crate::board::history::{lineage, PreviousMove};
use crate::board::pieces::{
    after_move, entries_below, initial_piece, initial_position, placements, removals, replayed,
    square, told, PieceUpdate, Position,
};
use crate::geometry::{is_corner, lemma_corner_not_between, lemma_slide_directions};
use crate::piece::step::{
    castle_corner, castle_crossing, castle_length, castle_offset, passed_square, Step,
};
use crate::piece::{BoardPiece, Piece};
use crate::rules::{
    announced, applied, attacked, in_check, legal, lemma_first_rule, matching_rule, oriented,
    path_clear, piece_attacks, piece_moves, ray_hits, reach, step_allows, step_attacks,
    step_reaches,
};
use crate::util::pos::{Move, Pos};
use crate::util::Side;

verus! {

/// A rule that takes its vectors once leads from a square to that square
/// plus one of its vectors, as the side takes it.
pub proof fn lemma_reach_once(step: Step, m: Position, side: Side, from: Pos, to: Pos)
    requires
        step.spec_once(),
        reach(step, m, side, from, to),
    ensures
        from.on_board(),
        to.on_board(),
        exists|i: int|
            0 <= i < step.spec_directions().len() && to.x == from.x + (#[trigger] oriented(
                step.spec_directions()[i],
                side,
            )).x && to.y == from.y + oriented(step.spec_directions()[i], side).y,
{
    let dirs = step.spec_directions();
    step.lemma_directions();
    let i = choose|i: int|
        0 <= i < dirs.len() && #[trigger] ray_hits(m, from, oriented(dirs[i], side), true, 8, to);
    let v = oriented(dirs[i], side);
    let n = choose|n: int|
        1 <= n < 8 && (true ==> n == 1) && #[trigger] from.stepped(v, n) == to && path_clear(
            m,
            from,
            v,
            n,
        );
    assert(-3 <= dirs[i].x <= 3 && -3 <= dirs[i].y <= 3);
    assert(to.x == from.x + v.x);
    assert(to.y == from.y + v.y);
}

/// What a piece threatens is what the rules under which it threatens lead
/// to: these rules ask nothing of the moves made so far nor of the squares
/// that the opponent threatens, so that their condition is met wherever the
/// squares of the position allow the step.
pub proof fn threats_are_what_the_rules_lead_to(
    kind: Piece,
    j: int,
    m: Position,
    h: Seq<PreviousMove>,
    side: Side,
    from: Pos,
    to: Pos,
)
    requires
        0 <= j < kind.spec_targets().len(),
    ensures
        step_attacks(kind.spec_targets()[j], m, side, from, to) <==> step_reaches(
            kind.spec_targets()[j],
            m,
            h,
            side,
            from,
            to,
        ),
{
}

/// Straight pushes are no attacks: a pawn never threatens a square of the
/// file it stands on, and where it may move to such a square, the square is
/// empty.
pub proof fn pawn_pushes_are_no_attacks(
    m: Position,
    h: Seq<PreviousMove>,
    pawn: BoardPiece,
    from: Pos,
    to: Pos,
)
    requires
        pawn.kind == Piece::Pawn,
        to.x == from.x,
    ensures
        !piece_attacks(m, pawn, from, to),
        piece_moves(m, h, pawn, Move { from, to }) ==> !m.dom().contains(to),
{
    if piece_attacks(m, pawn, from, to) {
        let j = choose|j: int|
            0 <= j < pawn.kind.spec_targets().len() && step_attacks(
                #[trigger] pawn.kind.spec_targets()[j],
                m,
                pawn.side,
                from,
                to,
            );
        lemma_reach_once(Step::PawnTake, m, pawn.side, from, to);
    }
    if piece_moves(m, h, pawn, Move { from, to }) {
        let mov = Move { from, to };
        let j = choose|j: int|
            0 <= j < pawn.kind.spec_moves().len() && step_allows(
                #[trigger] pawn.kind.spec_moves()[j],
                m,
                h,
                pawn,
                mov,
            );
        if j == 2 {
            lemma_reach_once(Step::PawnTake, m, pawn.side, from, to);
        } else if j == 3 {
            lemma_reach_once(Step::EnPassant, m, pawn.side, from, to);
        }
    }
}

/// The condition of castling holds exactly when the move stays on the
/// board and changes the file, neither the king nor the rook in the corner
/// towards which it moves has a move on record, the king is not threatened,
/// and no square that the king crosses, its destination included, is
/// occupied or threatened.
pub proof fn castling_is_open_exactly_when(
    m: Position,
    h: Seq<PreviousMove>,
    mov: Move,
    side: Side,
)
    ensures
        Step::Castling.spec_condition(m, h, mov, side) <==> {
            let corner = castle_corner(mov, side);
            &&& mov.from.on_board() && mov.to.on_board()
            &&& castle_offset(mov) != 0
            &&& lineage(h, mov.from).len() == 1
            &&& m.dom().contains(corner) && m[corner].kind == Piece::Rook
            &&& lineage(h, corner).len() == 1
            &&& !attacked(m, side.spec_other(), mov.from)
            &&& forall|i: int|
                1 <= i <= castle_length(mov) ==> {
                    let crossed = #[trigger] castle_crossing(mov, i);
                    !m.dom().contains(crossed) && !attacked(m, side.spec_other(), crossed)
                }
        },
{
}

/// A king may castle exactly when the move follows one of the castling
/// vectors, the condition of castling holds, and the king is not threatened
/// once it stands on its destination.
pub proof fn a_king_castles_exactly_when(
    m: Position,
    h: Seq<PreviousMove>,
    king: BoardPiece,
    mov: Move,
)
    ensures
        step_allows(Step::Castling, m, h, king, mov) <==> {
            let ahead = king.side.spec_forward();
            &&& mov.to.y == mov.from.y
            &&& (castle_offset(mov) == -3 * ahead || castle_offset(mov) == -2 * ahead
                || castle_offset(mov) == 2 * ahead)
            &&& Step::Castling.spec_condition(m, h, mov, king.side)
            &&& !in_check(after_move(m, king, mov), king.side)
        },
{
    let side = king.side;
    let dirs = Step::Castling.spec_directions();
    if step_allows(Step::Castling, m, h, king, mov) {
        lemma_reach_once(Step::Castling, m, side, mov.from, mov.to);
    }
    if mov.to.y == mov.from.y && Step::Castling.spec_condition(m, h, mov, side) {
        let offset = castle_offset(mov);
        let ahead = side.spec_forward();
        let i = if offset == -3 * ahead {
            0int
        } else if offset == -2 * ahead {
            1int
        } else {
            2int
        };
        if offset == -3 * ahead || offset == -2 * ahead || offset == 2 * ahead {
            let v = oriented(dirs[i], side);
            assert(mov.from.stepped(v, 1) == mov.to);
            assert(path_clear(m, mov.from, v, 1));
            assert(ray_hits(m, mov.from, oriented(dirs[i], side), true, 8, mov.to));
            assert(reach(Step::Castling, m, side, mov.from, mov.to));
            assert(castle_crossing(mov, castle_length(mov)) == mov.to);
            assert(mov == Move { from: mov.from, to: mov.to });
        }
    }
}

/// A capture in passing removes exactly the enemy pawn that stands beside
/// the origin and behind the destination: that square is not the
/// destination, it is empty afterwards, the capturing piece stands on the
/// destination, the origin is empty, and every other square is as it was.
pub proof fn en_passant_removes_the_passed_pawn(
    m: Position,
    h: Seq<PreviousMove>,
    side: Side,
    mov: Move,
)
    requires
        legal(m, h, side, mov),
        matching_rule(m, h, m[mov.from], mov) == Some(Step::EnPassant),
    ensures
        ({
            let behind = passed_square(mov, side);
            let after = applied(m, h, mov);
            &&& behind != mov.to && behind != mov.from
            &&& behind.y == mov.from.y && behind.x == mov.to.x
            &&& (behind.x == mov.from.x + 1 || behind.x == mov.from.x - 1)
            &&& m.dom().contains(behind) && m[behind] == (BoardPiece {
                kind: Piece::Pawn,
                side: side.spec_other(),
            })
            &&& !after.dom().contains(behind)
            &&& !after.dom().contains(mov.from)
            &&& after.dom().contains(mov.to) && after[mov.to].side == side
            &&& forall|q: Pos|
                q != behind && q != mov.from && q != mov.to ==> after.dom().contains(q)
                    == m.dom().contains(q) && (m.dom().contains(q) ==> after[q] == m[q])
        }),
{
    let piece = m[mov.from];
    lemma_first_rule(piece.kind.spec_moves(), m, h, piece, mov);
    lemma_reach_once(Step::EnPassant, m, side, mov.from, mov.to);
}

/// A pawn that lands on the home rank of its opponent becomes a queen,
/// whatever rule took it there.
pub proof fn pawn_on_the_last_rank_becomes_a_queen(
    m: Position,
    h: Seq<PreviousMove>,
    side: Side,
    mov: Move,
)
    requires
        legal(m, h, side, mov),
        m[mov.from].kind == Piece::Pawn,
        mov.to.y == side.spec_other().spec_origin(),
    ensures
        applied(m, h, mov).dom().contains(mov.to),
        applied(m, h, mov)[mov.to] == (BoardPiece { kind: Piece::Queen, side }),
{
    let piece = m[mov.from];
    lemma_first_rule(piece.kind.spec_moves(), m, h, piece, mov);
}

/// A check to `side` in the position `after` is a check in the position
/// `before` if `after` has kings of `side` and pieces of its opponent only
/// where `before` has the same, and every square that `before` occupies and
/// `after` does not is a corner.
pub proof fn lemma_check_carries_over(before: Position, after: Position, side: Side)
    requires
        forall|k: Pos| #[trigger]
            after.dom().contains(k) && after[k].spec_is_king(side) ==> before.dom().contains(k)
                && before[k].spec_is_king(side),
        forall|q: Pos| #[trigger]
            after.dom().contains(q) && after[q].side == side.spec_other() ==> before.dom().contains(
                q,
            ) && before[q] == after[q],
        forall|p: Pos| #[trigger]
            before.dom().contains(p) && !after.dom().contains(p) ==> is_corner(p),
    ensures
        in_check(after, side) ==> in_check(before, side),
{
    if in_check(after, side) {
        let by = side.spec_other();
        let k = choose|k: Pos| #[trigger]
            after.dom().contains(k) && after[k].spec_is_king(side) && attacked(after, by, k);
        let q = choose|q: Pos| #[trigger]
            after.dom().contains(q) && after[q].side == by && piece_attacks(after, after[q], q, k);
        let piece = after[q];
        let j = choose|j: int|
            0 <= j < piece.kind.spec_targets().len() && step_attacks(
                #[trigger] piece.kind.spec_targets()[j],
                after,
                piece.side,
                q,
                k,
            );
        let step = piece.kind.spec_targets()[j];
        let dirs = step.spec_directions();
        step.lemma_directions();
        let i = choose|i: int|
            0 <= i < dirs.len() && #[trigger] ray_hits(
                after,
                q,
                oriented(dirs[i], by),
                step.spec_once(),
                8,
                k,
            );
        let v = oriented(dirs[i], by);
        let n = choose|n: int|
            1 <= n < 8 && (step.spec_once() ==> n == 1) && #[trigger] q.stepped(v, n) == k
                && path_clear(after, q, v, n);
        assert(-3 <= dirs[i].x <= 3 && -3 <= dirs[i].y <= 3);
        assert forall|w: int| 1 <= w < n implies !before.dom().contains(
            #[trigger] q.stepped(v, w),
        ) by {
            lemma_corner_not_between(q, v, w, n);
        }
        assert(path_clear(before, q, v, n));
        assert(ray_hits(before, q, oriented(dirs[i], by), step.spec_once(), 8, k));
        assert(reach(step, before, by, q, k));
        assert(step_attacks(piece.kind.spec_targets()[j], before, by, q, k));
        assert(piece_attacks(before, before[q], q, k));
        assert(before.dom().contains(q) && before[q].side == by);
        assert(attacked(before, by, k));
        assert(before.dom().contains(k) && before[k].spec_is_king(side));
    }
}

/// No legal move leaves the king of the mover threatened, as long as the
/// move is no capture in passing and a castling king takes a rook of its
/// own side along.
pub proof fn legal_moves_keep_the_king_safe(
    m: Position,
    h: Seq<PreviousMove>,
    side: Side,
    mov: Move,
)
    requires
        legal(m, h, side, mov),
        matching_rule(m, h, m[mov.from], mov) != Some(Step::EnPassant),
        matching_rule(m, h, m[mov.from], mov) == Some(Step::Castling) ==> m[castle_corner(
            mov,
            side,
        )].side == side,
    ensures
        !in_check(applied(m, h, mov), side),
{
    let piece = m[mov.from];
    lemma_first_rule(piece.kind.spec_moves(), m, h, piece, mov);
    let step = matching_rule(m, h, piece, mov)->0;
    let moved = after_move(m, piece, mov);
    let after = applied(m, h, mov);
    assert(step_allows(step, m, h, piece, mov));
    assert(mov.to.on_board());
    if step == Step::Castling {
        let corner = castle_corner(mov, side);
        assert(piece.kind == Piece::King);
        assert(castle_crossing(mov, castle_length(mov)) == mov.to);
        assert(corner != mov.to);
        assert(corner != mov.from);
        assert(is_corner(corner));
    }
    lemma_check_carries_over(moved, after, side);
}

/// No piece of the position in which a game begins threatens the king of
/// the other side: the pieces that jump or step are too far away, and the
/// way of every slide is blocked by a pawn.
pub proof fn the_game_begins_without_check(side: Side)
    ensures
        !in_check(initial_position(), side),
{
    let m = initial_position();
    let by = side.spec_other();
    if in_check(m, side) {
        let k = choose|k: Pos| #[trigger]
            m.dom().contains(k) && m[k].spec_is_king(side) && attacked(m, by, k);
        let q = choose|q: Pos| #[trigger]
            m.dom().contains(q) && m[q].side == by && piece_attacks(m, m[q], q, k);
        let piece = m[q];
        assert(initial_piece(k) == Some(m[k]));
        assert(initial_piece(q) == Some(piece));
        let j = choose|j: int|
            0 <= j < piece.kind.spec_targets().len() && step_attacks(
                #[trigger] piece.kind.spec_targets()[j],
                m,
                piece.side,
                q,
                k,
            );
        let step = piece.kind.spec_targets()[j];
        let dirs = step.spec_directions();
        step.lemma_directions();
        let i = choose|i: int|
            0 <= i < dirs.len() && #[trigger] ray_hits(
                m,
                q,
                oriented(dirs[i], by),
                step.spec_once(),
                8,
                k,
            );
        let v = oriented(dirs[i], by);
        let n = choose|n: int|
            1 <= n < 8 && (step.spec_once() ==> n == 1) && #[trigger] q.stepped(v, n) == k
                && path_clear(m, q, v, n);
        assert(-3 <= dirs[i].x <= 3 && -3 <= dirs[i].y <= 3);
        let (vx, vy) = (v.x as int, v.y as int);
        assert(-24 <= vx * n <= 24 && -24 <= vy * n <= 24) by (nonlinear_arith)
            requires
                1 <= n < 8,
                -3 <= vx <= 3,
                -3 <= vy <= 3,
        ;
        assert(k.x == q.x + vx * n && k.y == q.y + vy * n);
        if !step.spec_once() {
            lemma_slide_directions(step);
            assert(-1 <= vx <= 1 && -1 <= vy <= 1);
            assert(n >= 6 && (vy == 1 || vy == -1)) by (nonlinear_arith)
                requires
                    1 <= n < 8,
                    -1 <= vy <= 1,
                    vy * n >= 6 || vy * n <= -6,
            ;
            assert(0 <= q.x + vx < 8) by (nonlinear_arith)
                requires
                    0 <= q.x < 8,
                    0 <= q.x + vx * n < 8,
                    n >= 1,
                    -1 <= vx <= 1,
            ;
            let first = q.stepped(v, 1);
            assert(first.x == q.x + vx && first.y == q.y + vy);
            assert(piece.kind != Piece::Pawn);
            assert(q.y == by.spec_origin());
            assert(k.y == side.spec_origin());
            assert(vy * n == k.y - q.y);
            if by == Side::Black {
                assert(vy == -1) by (nonlinear_arith)
                    requires
                        vy * n == -7,
                        n >= 1,
                        vy == 1 || vy == -1,
                ;
                assert(first.y == 6);
            } else {
                assert(vy == 1) by (nonlinear_arith)
                    requires
                        vy * n == 7,
                        n >= 1,
                        vy == 1 || vy == -1,
                ;
                assert(first.y == 1);
            }
            assert(first.on_board());
            assert(initial_piece(first) is Some);
            assert(m.dom().contains(first));
        }
    }
}

/// No move is allowed by two rules of one kind of piece.
pub proof fn lemma_rules_apart(
    m: Position,
    h: Seq<PreviousMove>,
    piece: BoardPiece,
    mov: Move,
    j1: int,
    j2: int,
)
    requires
        0 <= j1 < j2 < piece.kind.spec_moves().len(),
        step_allows(piece.kind.spec_moves()[j1], m, h, piece, mov),
    ensures
        !step_allows(piece.kind.spec_moves()[j2], m, h, piece, mov),
{
    let s1 = piece.kind.spec_moves()[j1];
    let s2 = piece.kind.spec_moves()[j2];
    if step_allows(s2, m, h, piece, mov) {
        lemma_reach_once(s1, m, piece.side, mov.from, mov.to);
        lemma_reach_once(s2, m, piece.side, mov.from, mov.to);
        let i1 = choose|i: int|
            0 <= i < s1.spec_directions().len() && mov.to.x == mov.from.x + (#[trigger] oriented(
                s1.spec_directions()[i],
                piece.side,
            )).x && mov.to.y == mov.from.y + oriented(s1.spec_directions()[i], piece.side).y;
        let i2 = choose|i: int|
            0 <= i < s2.spec_directions().len() && mov.to.x == mov.from.x + (#[trigger] oriented(
                s2.spec_directions()[i],
                piece.side,
            )).x && mov.to.y == mov.from.y + oriented(s2.spec_directions()[i], piece.side).y;
        let d1 = s1.spec_directions()[i1];
        let d2 = s2.spec_directions()[i2];
        assert(oriented(d1, piece.side) == oriented(d2, piece.side));
        assert(d1 == d2);
    }
}

/// To be told of some changes and then of some more is to be told of all
/// of them.
pub proof fn lemma_replayed_in_two(m: Position, first: Seq<PieceUpdate>, then: Seq<PieceUpdate>)
    ensures
        replayed(m, first + then) == replayed(replayed(m, first), then),
    decreases then.len(),
{
    if then.len() == 0 {
        assert(first + then =~= first);
    } else {
        assert((first + then).drop_last() =~= first + then.drop_last());
        assert((first + then).last() == then.last());
        lemma_replayed_in_two(m, first, then.drop_last());
    }
}

/// An observer that is told of one change or of two holds what the changes
/// make of the position.
pub proof fn lemma_replayed_few(m: Position, a: PieceUpdate, b: PieceUpdate)
    ensures
        replayed(m, Seq::empty()) == m,
        replayed(m, seq![a]) == told(m, a),
        replayed(m, seq![a, b]) == told(told(m, a), b),
{
    assert(seq![a].drop_last() =~= Seq::<PieceUpdate>::empty());
    assert(seq![a, b].drop_last() =~= seq![a]);
    reveal_with_fuel(replayed, 3);
}

/// An observer that is told what a move does holds the position that the
/// move leaves.
pub proof fn an_observer_keeps_up_with_a_move(
    m: Position,
    h: Seq<PreviousMove>,
    side: Side,
    mov: Move,
)
    requires
        legal(m, h, side, mov),
    ensures
        replayed(m, announced(m, h, mov)) == applied(m, h, mov),
{
    let piece = m[mov.from];
    lemma_first_rule(piece.kind.spec_moves(), m, h, piece, mov);
    let step = matching_rule(m, h, piece, mov)->0;
    let moved = after_move(m, piece, mov);
    let relocation = seq![
        PieceUpdate::Update(mov.from, None),
        PieceUpdate::Update(mov.to, Some(piece)),
    ];
    let effect = step.spec_events(moved, mov, side);
    lemma_replayed_few(m, relocation[0], relocation[1]);
    assert(replayed(m, relocation) == moved);
    lemma_replayed_in_two(m, relocation, effect);
    assert(mov.to.on_board());
    let queen = PieceUpdate::Modify(mov.to, Piece::Queen);
    let behind = passed_square(mov, side);
    let gone = PieceUpdate::Update(behind, None);
    lemma_replayed_few(moved, queen, queen);
    lemma_replayed_few(moved, gone, queen);
    lemma_replayed_few(moved.remove(behind), queen, queen);
    if step == Step::EnPassant {
        assert(moved.dom().contains(behind));
        assert(moved.remove(behind) == told(moved, gone));
        if effect.len() == 2 {
            assert(effect =~= seq![gone, queen]);
        } else {
            assert(effect =~= seq![gone]);
        }
    } else if step == Step::Castling {
        let corner = castle_corner(mov, side);
        let landing = crate::piece::step::castle_landing(mov);
        let left = PieceUpdate::Update(corner, None);
        let arrived = PieceUpdate::Update(landing, Some(moved[corner]));
        lemma_replayed_few(moved, left, arrived);
        if effect.len() > 0 {
            assert(effect =~= seq![left, arrived]);
        }
    } else if effect.len() > 0 {
        assert(effect =~= seq![queen]);
    }
}

/// An observer that is told of the removal of the first `n` squares'
/// pieces holds what stands on the other squares.
proof fn lemma_removals_below(start: Position, m: Position, n: nat)
    requires
        n <= 64,
    ensures
        replayed(
            start,
            entries_below(m, n).map_values(|e: (Pos, BoardPiece)| PieceUpdate::Update(e.0, None)),
        ) == start.remove_keys(
            Set::new(|p: Pos| p.on_board() && p.index() < n && m.dom().contains(p)),
        ),
    decreases n,
{
    let tell = |e: (Pos, BoardPiece)| PieceUpdate::Update(e.0, None);
    let gone = |k: nat| Set::new(|p: Pos| p.on_board() && p.index() < k && m.dom().contains(p));
    if n == 0 {
        assert(entries_below(m, 0).map_values(tell) =~= Seq::empty());
        assert(start.remove_keys(gone(0)) =~= start);
    } else {
        let k = (n - 1) as nat;
        let p = square(k as int);
        lemma_removals_below(start, m, k);
        assert(p.on_board() && p.index() == k);
        assert forall|q: Pos| q.on_board() && q.index() == k implies q == p by {
            crate::board::pieces::lemma_square_index(q);
        }
        if m.dom().contains(p) {
            let before = entries_below(m, k);
            assert(entries_below(m, n).map_values(tell) =~= before.map_values(tell).push(
                PieceUpdate::Update(p, None),
            ));
            assert(before.map_values(tell).push(PieceUpdate::Update(p, None)).drop_last()
                =~= before.map_values(tell));
            assert(start.remove_keys(gone(n)) =~= start.remove_keys(gone(k)).remove(p));
        } else {
            assert(start.remove_keys(gone(n)) =~= start.remove_keys(gone(k)));
        }
    }
}

/// An observer that is told of the placement of the pieces that `m` has on
/// its first `n` squares holds them over what it held before.
proof fn lemma_placements_below(start: Position, m: Position, n: nat)
    requires
        n <= 64,
    ensures
        replayed(
            start,
            entries_below(m, n).map_values(
                |e: (Pos, BoardPiece)| PieceUpdate::Update(e.0, Some(e.1)),
            ),
        ) == start.union_prefer_right(
            m.restrict(Set::new(|p: Pos| p.on_board() && p.index() < n)),
        ),
    decreases n,
{
    let tell = |e: (Pos, BoardPiece)| PieceUpdate::Update(e.0, Some(e.1));
    let part = |k: nat| m.restrict(Set::new(|p: Pos| p.on_board() && p.index() < k));
    if n == 0 {
        assert(entries_below(m, 0).map_values(tell) =~= Seq::empty());
        assert(start.union_prefer_right(part(0)) =~= start);
    } else {
        let k = (n - 1) as nat;
        let p = square(k as int);
        lemma_placements_below(start, m, k);
        assert(p.on_board() && p.index() == k);
        assert forall|q: Pos| q.on_board() && q.index() == k implies q == p by {
            crate::board::pieces::lemma_square_index(q);
        }
        if m.dom().contains(p) {
            let before = entries_below(m, k);
            let placed = PieceUpdate::Update(p, Some(m[p]));
            assert(entries_below(m, n).map_values(tell) =~= before.map_values(tell).push(placed));
            assert(before.map_values(tell).push(placed).drop_last() =~= before.map_values(tell));
            assert(start.union_prefer_right(part(n)) =~= start.union_prefer_right(part(k)).insert(
                p,
                m[p],
            ));
        } else {
            assert(start.union_prefer_right(part(n)) =~= start.union_prefer_right(part(k)));
        }
    }
}

/// An observer that is told what a reset does to a position on the board
/// holds the position in which a game begins.
pub proof fn an_observer_keeps_up_with_a_reset(m: Position)
    requires
        forall|p: Pos| m.dom().contains(p) ==> p.on_board(),
    ensures
        replayed(m, removals(m)) == Map::<Pos, BoardPiece>::empty(),
        replayed(m, removals(m) + placements(initial_position())) == initial_position(),
{
    let empty = Map::<Pos, BoardPiece>::empty();
    lemma_removals_below(m, m, 64);
    assert(m.remove_keys(Set::new(|p: Pos| p.on_board() && p.index() < 64 && m.dom().contains(p)))
        =~= empty);
    lemma_placements_below(empty, initial_position(), 64);
    assert(empty.union_prefer_right(
        initial_position().restrict(Set::new(|p: Pos| p.on_board() && p.index() < 64)),
    ) =~= initial_position());
    lemma_replayed_in_two(m, removals(m), placements(initial_position()));
}

} // verus!
