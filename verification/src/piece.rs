//! The six piece kinds and the pieces that stand on the board.

use vstd::prelude::*;

pub mod step;

use crate::board::pieces::{after_move, lemma_square_index, square, square_at, Pieces};
use crate::board::Board;
use crate::geometry::{lemma_leaves_board, lemma_next_step, lemma_rays_apart, lemma_steps_apart};
use crate::theorems::lemma_rules_apart;
use crate::rules::{
    attacked, blocked, first_rule, in_check, matching_rule, oriented, path_clear, piece_attacks,
    piece_moves, ray_hits, rays_hit, reach, step_allows, step_attacks, step_reaches,
};
use crate::seqs::{lemma_concat_apart, lemma_filter_step, lemma_push_fresh};
use crate::util::pos::{Move, Pos};
use crate::util::Side;
use step::{PieceStep, Step};

verus! {

/// A piece kind.
#[derive(Debug, Clone, Copy, PartialEq, Eq, Hash, PartialOrd, Ord, Structural)]
pub enum Piece {
    Pawn,
    Rook,
    Knight,
    Bishop,
    Queen,
    King,
}

/// A piece of one side. It has no identity beyond the square it stands on.
#[derive(Debug, Clone, Copy, PartialEq, Eq, Hash, Structural)]
pub struct BoardPiece {
    pub kind: Piece,
    pub side: Side,
}

impl Piece {
    /// The rules under which a piece of this kind threatens squares.
    pub open spec fn spec_targets(&self) -> Seq<Step> {
        match self {
            Piece::Pawn => seq![Step::PawnTake],
            Piece::Rook => seq![Step::Rook],
            Piece::Knight => seq![Step::Knight],
            Piece::Bishop => seq![Step::Bishop],
            Piece::Queen => seq![Step::Queen],
            Piece::King => seq![Step::KingTarget],
        }
    }

    /// The rules under which a piece of this kind moves.
    pub open spec fn spec_moves(&self) -> Seq<Step> {
        match self {
            Piece::Pawn => seq![
                Step::SingleMove,
                Step::DoubleMove,
                Step::PawnTake,
                Step::EnPassant,
            ],
            Piece::Rook => seq![Step::Rook],
            Piece::Knight => seq![Step::Knight],
            Piece::Bishop => seq![Step::Bishop],
            Piece::Queen => seq![Step::Queen],
            Piece::King => seq![Step::KingMove, Step::Castling],
        }
    }

    /// The rules under which a piece of this kind threatens squares.
    pub fn targets(&self) -> (r: Vec<Step>)
        ensures
            r@ == self.spec_targets(),
    {
        let r = match self {
            Piece::Pawn => vec![Step::PawnTake],
            Piece::Rook => vec![Step::Rook],
            Piece::Knight => vec![Step::Knight],
            Piece::Bishop => vec![Step::Bishop],
            Piece::Queen => vec![Step::Queen],
            Piece::King => vec![Step::KingTarget],
        };
        assert(r@ =~= self.spec_targets());
        r
    }

    /// The rules under which a piece of this kind moves.
    pub fn moves(&self) -> (r: Vec<Step>)
        ensures
            r@ == self.spec_moves(),
    {
        let r = match self {
            Piece::Pawn => vec![
                Step::SingleMove,
                Step::DoubleMove,
                Step::PawnTake,
                Step::EnPassant,
            ],
            Piece::Rook => vec![Step::Rook],
            Piece::Knight => vec![Step::Knight],
            Piece::Bishop => vec![Step::Bishop],
            Piece::Queen => vec![Step::Queen],
            Piece::King => vec![Step::KingMove, Step::Castling],
        };
        assert(r@ =~= self.spec_moves());
        r
    }

    /// The glyph that shows a piece of this kind and the given side.
    pub open spec fn spec_symbol(&self, side: Side) -> char {
        match side {
            Side::White => match self {
                Piece::Pawn => '\u{265F}',
                Piece::Rook => '\u{265C}',
                Piece::Knight => '\u{265E}',
                Piece::Bishop => '\u{265D}',
                Piece::Queen => '\u{265B}',
                Piece::King => '\u{265A}',
            },
            Side::Black => match self {
                Piece::Pawn => '\u{2659}',
                Piece::Rook => '\u{2656}',
                Piece::Knight => '\u{2658}',
                Piece::Bishop => '\u{2657}',
                Piece::Queen => '\u{2655}',
                Piece::King => '\u{2654}',
            },
        }
    }

    /// The glyph that shows a piece of this kind and the given side.
    #[verifier::when_used_as_spec(spec_symbol)]
    pub fn symbol(&self, side: Side) -> (r: char)
        ensures
            r == self.spec_symbol(side),
    {
        match side {
            Side::White => match self {
                Piece::Pawn => '\u{265F}',
                Piece::Rook => '\u{265C}',
                Piece::Knight => '\u{265E}',
                Piece::Bishop => '\u{265D}',
                Piece::Queen => '\u{265B}',
                Piece::King => '\u{265A}',
            },
            Side::Black => match self {
                Piece::Pawn => '\u{2659}',
                Piece::Rook => '\u{2656}',
                Piece::Knight => '\u{2658}',
                Piece::Bishop => '\u{2657}',
                Piece::Queen => '\u{2655}',
                Piece::King => '\u{2654}',
            },
        }
    }
}

impl BoardPiece {
    /// Whether this is the king of `side`.
    pub open spec fn spec_is_king(&self, side: Side) -> bool {
        self.kind == Piece::King && self.side == side
    }

    /// The glyph that shows this piece.
    pub fn symbol(&self) -> (r: char)
        ensures
            r == self.kind.spec_symbol(self.side),
    {
        self.kind.symbol(self.side)
    }

    /// Whether this is the king of `side`.
    #[verifier::when_used_as_spec(spec_is_king)]
    pub fn is_king(&self, side: Side) -> (r: bool)
        ensures
            r == self.spec_is_king(side),
    {
        self.kind == Piece::King && self.side == side
    }
}

/// Whether `v` holds `p`.
pub(crate) fn holds(v: &Vec<Pos>, p: Pos) -> (r: bool)
    ensures
        r == v@.contains(p),
{
    let mut i: usize = 0;
    while i < v.len()
        invariant
            i <= v.len(),
            forall|k: int| 0 <= k < i ==> v@[k] != p,
        decreases v.len() - i,
    {
        if v[i] == p {
            return true;
        }
        i += 1;
    }
    false
}

impl BoardPiece {
    /// The squares to which the vectors of `step` lead a piece of `side` from
    /// `position`: those on the board that a single step reaches, or a slide
    /// over empty squares.
    pub fn with(pieces: &Pieces, step: &Step, position: Pos, side: Side) -> (out: Vec<Pos>)
        ensures
            forall|to: Pos| #[trigger]
                out@.contains(to) <==> reach(*step, pieces@, side, position, to),
            out@.no_duplicates(),
    {
        let mut out: Vec<Pos> = Vec::new();
        if !position.is_on_board() {
            return out;
        }
        let dirs = step.vectors();
        let once = step.single();
        proof {
            step.lemma_directions();
        }
        let mut i: usize = 0;
        while i < dirs.len()
            invariant
                position.on_board(),
                dirs@ == step.spec_directions(),
                once == step.spec_once(),
                i <= dirs.len(),
                out@.no_duplicates(),
                forall|k: int|
                    0 <= k < dirs@.len() ==> {
                        let d = #[trigger] dirs@[k];
                        &&& -3 <= d.x <= 3
                        &&& -3 <= d.y <= 3
                        &&& (d.x != 0 || d.y != 0)
                    },
                forall|to: Pos| #[trigger]
                    out@.contains(to) <==> to.on_board() && rays_hit(
                        pieces@,
                        position,
                        dirs@,
                        side,
                        once,
                        i as int,
                        to,
                    ),
            decreases dirs.len() - i,
        {
            let v = dirs[i] * side.forward();
            assert(v == oriented(dirs@[i as int], side));
            let ghost before = out@;
            proof {
                let m = pieces@;
                assert forall|to: Pos| before.contains(to) implies !ray_hits(
                    m,
                    position,
                    v,
                    once,
                    8,
                    to,
                ) by {
                    if ray_hits(m, position, v, once, 8, to) {
                        let k = choose|k: int|
                            0 <= k < i && #[trigger] ray_hits(
                                m,
                                position,
                                oriented(dirs@[k], side),
                                once,
                                8,
                                to,
                            );
                        let n1 = choose|n: int|
                            1 <= n < 8 && (once ==> n == 1) && #[trigger] position.stepped(
                                oriented(dirs@[k], side),
                                n,
                            ) == to && path_clear(m, position, oriented(dirs@[k], side), n);
                        let n2 = choose|n: int|
                            1 <= n < 8 && (once ==> n == 1) && #[trigger] position.stepped(v, n)
                                == to && path_clear(m, position, v, n);
                        lemma_rays_apart(*step, side, position, k, n1, i as int, n2);
                    }
                }
            }
            Self::along(pieces, position, v, once, &mut out);
            proof {
                let m = pieces@;
                assert forall|to: Pos| #[trigger]
                    out@.contains(to) <==> to.on_board() && rays_hit(
                        m,
                        position,
                        dirs@,
                        side,
                        once,
                        i + 1,
                        to,
                    ) by {
                    if rays_hit(m, position, dirs@, side, once, i + 1, to) {
                        let k = choose|k: int|
                            0 <= k < i + 1 && #[trigger] ray_hits(
                                m,
                                position,
                                oriented(dirs@[k], side),
                                once,
                                8,
                                to,
                            );
                        if k < i {
                            assert(rays_hit(m, position, dirs@, side, once, i as int, to));
                        } else {
                            assert(ray_hits(m, position, v, once, 8, to));
                        }
                    }
                    if rays_hit(m, position, dirs@, side, once, i as int, to) {
                        let k = choose|k: int|
                            0 <= k < i && #[trigger] ray_hits(
                                m,
                                position,
                                oriented(dirs@[k], side),
                                once,
                                8,
                                to,
                            );
                        assert(rays_hit(m, position, dirs@, side, once, i + 1, to));
                    }
                    if ray_hits(m, position, v, once, 8, to) {
                        assert(ray_hits(m, position, oriented(dirs@[i as int], side), once, 8, to));
                        assert(rays_hit(m, position, dirs@, side, once, i + 1, to));
                    }
                }
            }
            i += 1;
        }
        out
    }

    /// Adds to `out` the squares of the board that lie in direction `v` from
    /// `position`: the first one, or, for a slide, all up to the first
    /// occupied one.
    fn along(pieces: &Pieces, position: Pos, v: Pos, once: bool, out: &mut Vec<Pos>)
        requires
            position.on_board(),
            -3 <= v.x <= 3,
            -3 <= v.y <= 3,
            v.x != 0 || v.y != 0,
            old(out)@.no_duplicates(),
            forall|to: Pos|
                old(out)@.contains(to) ==> !ray_hits(pieces@, position, v, once, 8, to),
        ensures
            forall|to: Pos| #[trigger]
                final(out)@.contains(to) <==> old(out)@.contains(to) || (to.on_board()
                    && ray_hits(pieces@, position, v, once, 8, to)),
            final(out)@.no_duplicates(),
    {
        let ghost m = pieces@;
        let ghost before = out@;
        let mut n: i8 = 1;
        let mut cur = position;
        let mut open = true;
        proof {
            lemma_next_step(position, v, 1);
            assert forall|to: Pos| !ray_hits(m, position, v, once, 1, to) by {}
        }
        while open && n < 8
            invariant
                position.on_board(),
                m == pieces@,
                -3 <= v.x <= 3,
                -3 <= v.y <= 3,
                v.x != 0 || v.y != 0,
                1 <= n <= 8,
                out@.no_duplicates(),
                forall|to: Pos| before.contains(to) ==> !ray_hits(m, position, v, once, 8, to),
                open ==> cur == position.stepped(v, n - 1) && cur.on_board() && path_clear(
                    m,
                    position,
                    v,
                    n as int,
                ) && (once ==> n == 1),
                forall|to: Pos| #[trigger]
                    out@.contains(to) <==> before.contains(to) || (to.on_board() && ray_hits(
                        m,
                        position,
                        v,
                        once,
                        if open {
                            n as int
                        } else {
                            8
                        },
                        to,
                    )),
            decreases 8 - n + (if open { 1int } else { 0int }),
        {
            proof {
                lemma_next_step(position, v, n as int);
            }
            let next = Pos { x: cur.x + v.x, y: cur.y + v.y };
            assert(next == position.stepped(v, n as int));
            if !next.is_on_board() {
                proof {
                    assert forall|to: Pos|
                        to.on_board() && ray_hits(m, position, v, once, 8, to) implies ray_hits(
                        m,
                        position,
                        v,
                        once,
                        n as int,
                        to,
                    ) by {
                        let w = choose|w: int|
                            1 <= w < 8 && (once ==> w == 1) && #[trigger] position.stepped(v, w)
                                == to && path_clear(m, position, v, w);
                        if w >= n {
                            lemma_leaves_board(position, v, n as int, w);
                        }
                        assert(position.stepped(v, w) == to);
                    }
                    assert forall|to: Pos|
                        ray_hits(m, position, v, once, n as int, to) implies ray_hits(
                        m,
                        position,
                        v,
                        once,
                        8,
                        to,
                    ) by {
                        let w = choose|w: int|
                            1 <= w < n && (once ==> w == 1) && #[trigger] position.stepped(v, w)
                                == to && path_clear(m, position, v, w);
                        assert(position.stepped(v, w) == to);
                    }
                }
                open = false;
            } else {
                let ghost filled = out@;
                proof {
                    assert(ray_hits(m, position, v, once, 8, next));
                    if ray_hits(m, position, v, once, n as int, next) {
                        let w = choose|w: int|
                            1 <= w < n && (once ==> w == 1) && #[trigger] position.stepped(v, w)
                                == next && path_clear(m, position, v, w);
                        lemma_steps_apart(position, v, w, n as int);
                    }
                    lemma_push_fresh(filled, next);
                }
                out.push(next);
                let stop = once || pieces.at(&next).is_some();
                proof {
                    let bound = if stop {
                        8
                    } else {
                        n + 1
                    };
                    assert forall|to: Pos| #[trigger]
                        out@.contains(to) <==> before.contains(to) || (to.on_board()
                            && ray_hits(m, position, v, once, bound, to)) by {
                        vstd::seq_lib::lemma_seq_contains_after_push(filled, next, to);
                        if to == next {
                            assert(position.stepped(v, n as int) == to);
                            assert(ray_hits(m, position, v, once, bound, to));
                        }
                        if ray_hits(m, position, v, once, bound, to) {
                            let w = choose|w: int|
                                1 <= w < bound && (once ==> w == 1) && #[trigger] position.stepped(
                                    v,
                                    w,
                                ) == to && path_clear(m, position, v, w);
                            if w < n {
                                assert(position.stepped(v, w) == to);
                                assert(ray_hits(m, position, v, once, n as int, to));
                            } else if w > n {
                                assert(!m.dom().contains(position.stepped(v, n as int)));
                            }
                        }
                        if ray_hits(m, position, v, once, n as int, to) {
                            let w = choose|w: int|
                                1 <= w < n && (once ==> w == 1) && #[trigger] position.stepped(v, w)
                                    == to && path_clear(m, position, v, w);
                            assert(position.stepped(v, w) == to);
                            assert(ray_hits(m, position, v, once, bound, to));
                        }
                    }
                }
                if stop {
                    open = false;
                } else {
                    cur = next;
                    n += 1;
                }
            }
        }
    }

    /// The squares that this piece threatens when it stands on `position`:
    /// its attack set, gathered rule by rule.
    pub fn threats(&self, pieces: &Pieces, position: Pos) -> (out: Vec<Pos>)
        ensures
            forall|to: Pos| #[trigger]
                out@.contains(to) <==> piece_attacks(pieces@, *self, position, to),
            out@.no_duplicates(),
    {
        let steps = self.kind.targets();
        assert(steps@.len() == 1);
        let mut out: Vec<Pos> = Vec::new();
        let mut j: usize = 0;
        while j < steps.len()
            invariant
                steps@ == self.kind.spec_targets(),
                steps@.len() == 1,
                j <= steps.len(),
                j == 0 ==> out@.len() == 0,
                out@.no_duplicates(),
                forall|to: Pos| #[trigger]
                    out@.contains(to) <==> exists|k: int|
                        0 <= k < j && step_attacks(
                            #[trigger] steps@[k],
                            pieces@,
                            self.side,
                            position,
                            to,
                        ),
            decreases steps.len() - j,
        {
            let step = steps[j];
            let reached = Self::with(pieces, &step, position, self.side);
            let ghost before = out@;
            let ghost keep = |to: Pos|
                step.spec_occupancy(pieces@, Move { from: position, to }, self.side);
            let mut t: usize = 0;
            while t < reached.len()
                invariant
                    t <= reached.len(),
                    before.len() == 0,
                    reached@.no_duplicates(),
                    out@.no_duplicates(),
                    forall|to: Pos|
                        reached@.contains(to) ==> reach(step, pieces@, self.side, position, to),
                    keep == |to: Pos|
                        step.spec_occupancy(pieces@, Move { from: position, to }, self.side),
                    forall|to: Pos| #[trigger]
                        out@.contains(to) <==> before.contains(to) || (reached@.take(
                            t as int,
                        ).contains(to) && keep(to)),
                decreases reached.len() - t,
            {
                let to = reached[t];
                let ghost filled = out@;
                assert(reached@.contains(to));
                if step.occupancy(pieces, Move { from: position, to }, self.side) {
                    out.push(to);
                }
                proof {
                    lemma_filter_step(before, reached@, t as int, keep, filled, out@);
                }
                t += 1;
            }
            proof {
                assert(reached@.take(t as int) =~= reached@);
                assert forall|to: Pos| #[trigger]
                    out@.contains(to) <==> exists|k: int|
                        0 <= k < j + 1 && step_attacks(
                            #[trigger] steps@[k],
                            pieces@,
                            self.side,
                            position,
                            to,
                        ) by {
                    let here = step_attacks(steps@[j as int], pieces@, self.side, position, to);
                    assert(here <==> reached@.contains(to) && keep(to));
                    if exists|k: int|
                        0 <= k < j + 1 && step_attacks(
                            #[trigger] steps@[k],
                            pieces@,
                            self.side,
                            position,
                            to,
                        ) {
                        let k = choose|k: int|
                            0 <= k < j + 1 && step_attacks(
                                #[trigger] steps@[k],
                                pieces@,
                                self.side,
                                position,
                                to,
                            );
                        if k < j {
                            assert(before.contains(to));
                        }
                    }
                }
            }
            j += 1;
        }
        out
    }
}

impl BoardPiece {
    /// Whether a square lies on the board.
    pub fn on(pos: Pos) -> (r: bool)
        ensures
            r == pos.on_board(),
    {
        pos.x >= 0 && pos.x < 8 && pos.y >= 0 && pos.y < 8
    }

    /// The squares to which the rule `step` leads a piece of `side` from
    /// `position`: those that its vectors reach and where its condition holds.
    pub fn step_targets(board: &Board, step: &Step, position: Pos, side: Side) -> (out: Vec<Pos>)
        ensures
            forall|to: Pos| #[trigger]
                out@.contains(to) <==> step_reaches(
                    *step,
                    board.pieces@,
                    board.history@,
                    side,
                    position,
                    to,
                ),
            out@.no_duplicates(),
    {
        let reached = Self::with(&board.pieces, step, position, side);
        let mut out: Vec<Pos> = Vec::new();
        let ghost keep = |to: Pos|
            step.spec_condition(board.pieces@, board.history@, Move { from: position, to }, side);
        let mut t: usize = 0;
        while t < reached.len()
            invariant
                t <= reached.len(),
                reached@.no_duplicates(),
                out@.no_duplicates(),
                keep == |to: Pos|
                    step.spec_condition(
                        board.pieces@,
                        board.history@,
                        Move { from: position, to },
                        side,
                    ),
                forall|to: Pos| #[trigger]
                    out@.contains(to) <==> Seq::<Pos>::empty().contains(to) || (reached@.take(
                        t as int,
                    ).contains(to) && keep(to)),
            decreases reached.len() - t,
        {
            let to = reached[t];
            let ghost filled = out@;
            if step.condition(board, Move { from: position, to }, side) {
                out.push(to);
            }
            proof {
                lemma_filter_step(Seq::empty(), reached@, t as int, keep, filled, out@);
            }
            t += 1;
        }
        assert(reached@.take(t as int) =~= reached@);
        out
    }

    /// Whether the king of the side of `piece` is not threatened once
    /// `piece` has left `mov.from` and stands on `mov.to`.
    fn prevents_check(board: &Board, piece: BoardPiece, mov: &Move) -> (r: bool)
        requires
            mov.to.on_board(),
        ensures
            r == !in_check(after_move(board.pieces@, piece, *mov), piece.side),
    {
        !board.pieces.with_move(mov, piece).in_check(piece.side)
    }

    /// The squares to which `piece` may move from `position` under the rule
    /// `step`.
    pub fn step_moves(board: &Board, step: &Step, piece: BoardPiece, position: Pos) -> (out: Vec<
        Pos,
    >)
        ensures
            forall|to: Pos| #[trigger]
                out@.contains(to) <==> step_allows(
                    *step,
                    board.pieces@,
                    board.history@,
                    piece,
                    Move { from: position, to },
                ),
            out@.no_duplicates(),
    {
        let led = Self::step_targets(board, step, position, piece.side);
        let mut out: Vec<Pos> = Vec::new();
        let ghost keep = |to: Pos|
            !blocked(board.pieces@, piece.side, to) && !in_check(
                after_move(board.pieces@, piece, Move { from: position, to }),
                piece.side,
            );
        let mut t: usize = 0;
        while t < led.len()
            invariant
                t <= led.len(),
                led@.no_duplicates(),
                out@.no_duplicates(),
                forall|to: Pos| #[trigger]
                    led@.contains(to) <==> step_reaches(
                        *step,
                        board.pieces@,
                        board.history@,
                        piece.side,
                        position,
                        to,
                    ),
                keep == |to: Pos|
                    !blocked(board.pieces@, piece.side, to) && !in_check(
                        after_move(board.pieces@, piece, Move { from: position, to }),
                        piece.side,
                    ),
                forall|to: Pos| #[trigger]
                    out@.contains(to) <==> Seq::<Pos>::empty().contains(to) || (led@.take(
                        t as int,
                    ).contains(to) && keep(to)),
            decreases led.len() - t,
        {
            let to = led[t];
            let ghost filled = out@;
            assert(led@.contains(to));
            let free = match board.pieces.at(&to) {
                Some(other) => other.side != piece.side && other.kind != Piece::King,
                None => true,
            };
            if free && Self::prevents_check(board, piece, &Move { from: position, to }) {
                out.push(to);
            }
            proof {
                lemma_filter_step(Seq::empty(), led@, t as int, keep, filled, out@);
            }
            t += 1;
        }
        assert(led@.take(t as int) =~= led@);
        out
    }

    /// The attack set of this piece when it stands on `position`: the
    /// squares that it threatens.
    pub fn targets(&self, board: &Board, position: Pos) -> (out: Vec<Pos>)
        ensures
            forall|to: Pos| #[trigger]
                out@.contains(to) <==> piece_attacks(board.pieces@, *self, position, to),
            out@.no_duplicates(),
    {
        self.threats(&board.pieces, position)
    }

    /// The legal-move set of this piece when it stands on `position`: the
    /// squares to which it may move.
    pub fn moves(&self, board: &Board, position: Pos) -> (out: Vec<Pos>)
        ensures
            forall|to: Pos| #[trigger]
                out@.contains(to) <==> piece_moves(
                    board.pieces@,
                    board.history@,
                    *self,
                    Move { from: position, to },
                ),
            out@.no_duplicates(),
    {
        let steps = self.kind.moves();
        let mut out: Vec<Pos> = Vec::new();
        let mut j: usize = 0;
        while j < steps.len()
            invariant
                steps@ == self.kind.spec_moves(),
                j <= steps.len(),
                out@.no_duplicates(),
                forall|to: Pos| #[trigger]
                    out@.contains(to) <==> exists|k: int|
                        0 <= k < j && step_allows(
                            #[trigger] steps@[k],
                            board.pieces@,
                            board.history@,
                            *self,
                            Move { from: position, to },
                        ),
            decreases steps.len() - j,
        {
            let step = steps[j];
            let mut found = Self::step_moves(board, &step, *self, position);
            let ghost before = out@;
            let ghost added = found@;
            proof {
                assert forall|to: Pos| before.contains(to) implies !added.contains(to) by {
                    let mov = Move { from: position, to };
                    let k = choose|k: int|
                        0 <= k < j && step_allows(
                            #[trigger] steps@[k],
                            board.pieces@,
                            board.history@,
                            *self,
                            mov,
                        );
                    lemma_rules_apart(board.pieces@, board.history@, *self, mov, k, j as int);
                }
                lemma_concat_apart(before, added);
            }
            out.append(&mut found);
            proof {
                assert(out@ == before + added);
                assert forall|to: Pos| #[trigger]
                    out@.contains(to) <==> exists|k: int|
                        0 <= k < j + 1 && step_allows(
                            #[trigger] steps@[k],
                            board.pieces@,
                            board.history@,
                            *self,
                            Move { from: position, to },
                        ) by {
                    let mov = Move { from: position, to };
                    assert(added.contains(to) <==> step_allows(
                        steps@[j as int],
                        board.pieces@,
                        board.history@,
                        *self,
                        mov,
                    ));
                    if exists|k: int|
                        0 <= k < j + 1 && step_allows(
                            #[trigger] steps@[k],
                            board.pieces@,
                            board.history@,
                            *self,
                            mov,
                        ) {
                        let k = choose|k: int|
                            0 <= k < j + 1 && step_allows(
                                #[trigger] steps@[k],
                                board.pieces@,
                                board.history@,
                                *self,
                                mov,
                            );
                        if k < j {
                            assert(before.contains(to));
                        }
                    }
                }
            }
            j += 1;
        }
        out
    }

    /// The rule under which this piece may make the move `mov`, if any: the
    /// first rule of its kind that allows it.
    pub fn can_move(&self, board: &Board, mov: Move) -> (r: Option<Step>)
        ensures
            r == matching_rule(board.pieces@, board.history@, *self, mov),
    {
        let steps = self.kind.moves();
        let mut j: usize = 0;
        assert(steps@.skip(0) =~= steps@);
        while j < steps.len()
            invariant
                steps@ == self.kind.spec_moves(),
                j <= steps.len(),
                matching_rule(board.pieces@, board.history@, *self, mov) == first_rule(
                    steps@.skip(j as int),
                    board.pieces@,
                    board.history@,
                    *self,
                    mov,
                ),
            decreases steps.len() - j,
        {
            let step = steps[j];
            let found = Self::step_moves(board, &step, *self, mov.from);
            proof {
                assert(steps@.skip(j as int)[0] == step);
                assert(steps@.skip(j as int).drop_first() =~= steps@.skip(j + 1));
                assert(mov == Move { from: mov.from, to: mov.to });
            }
            if holds(&found, mov.to) {
                return Some(step);
            }
            j += 1;
        }
        None
    }
}

impl Pieces {
    /// Whether some piece of side `by` threatens the square `target`.
    pub fn attacked(&self, by: Side, target: Pos) -> (r: bool)
        ensures
            r == attacked(self@, by, target),
    {
        let mut i: usize = 0;
        while i < 64
            invariant
                i <= 64,
                forall|k: int|
                    0 <= k < i ==> !(self@.dom().contains(#[trigger] square(k)) && self@[square(
                        k,
                    )].side == by && piece_attacks(self@, self@[square(k)], square(k), target)),
            decreases 64 - i,
        {
            let q = square_at(i);
            match self.at(&q) {
                Some(piece) => {
                    if piece.side == by {
                        let threatened = piece.threats(self, q);
                        if holds(&threatened, target) {
                            return true;
                        }
                    }
                },
                None => {},
            }
            i += 1;
        }
        proof {
            self.lemma_on_board();
            assert forall|q: Pos| #[trigger]
                self@.dom().contains(q) && self@[q].side == by implies !piece_attacks(
                self@,
                self@[q],
                q,
                target,
            ) by {
                lemma_square_index(q);
                assert(self@.dom().contains(square(q.index())));
            }
        }
        false
    }

    /// Whether a king of `side` stands on a square that the opponent threatens.
    pub fn in_check(&self, side: Side) -> (r: bool)
        ensures
            r == in_check(self@, side),
    {
        let mut i: usize = 0;
        while i < 64
            invariant
                i <= 64,
                forall|k: int|
                    0 <= k < i ==> !(self@.dom().contains(#[trigger] square(k)) && self@[square(
                        k,
                    )].spec_is_king(side) && attacked(self@, side.spec_other(), square(k))),
            decreases 64 - i,
        {
            let k = square_at(i);
            match self.at(&k) {
                Some(piece) => {
                    if piece.is_king(side) && self.attacked(side.other(), k) {
                        return true;
                    }
                },
                None => {},
            }
            i += 1;
        }
        proof {
            self.lemma_on_board();
            assert forall|k: Pos| #[trigger]
                self@.dom().contains(k) && self@[k].spec_is_king(side) implies !attacked(
                self@,
                side.spec_other(),
                k,
            ) by {
                lemma_square_index(k);
                assert(self@.dom().contains(square(k.index())));
            }
        }
        false
    }
}

} // verus!
