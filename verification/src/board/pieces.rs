//! The position: which piece stands on which square.

use vstd::prelude::*;

use crate::piece::{BoardPiece, Piece};
use crate::util::pos::{pos, Move, Pos};
use crate::util::Side;

verus! {

/// A position as a mathematical map from occupied squares to their pieces.
pub type Position = Map<Pos, BoardPiece>;

/// A change to the position, as an observer is told of it.
#[derive(Debug, Clone, Copy, PartialEq, Eq)]
pub enum PieceUpdate {
    /// The square now holds the given piece, or nothing.
    Update(Pos, Option<BoardPiece>),
    /// The piece on the square has become one of the given kind.
    Modify(Pos, Piece),
}

/// The occupied squares with their pieces, and the changes made to them that
/// no observer has collected yet.
pub struct Pieces {
    grid: [Option<BoardPiece>; 64],
    log: Vec<PieceUpdate>,
}

/// The square with the given number, counting rank by rank from a1.
pub open spec fn square(i: int) -> Pos {
    pos(i % 8, i / 8)
}

/// The occupied ones among the first `n` squares, with their pieces, in the
/// order of the squares' numbers.
pub open spec fn entries_below(m: Position, n: nat) -> Seq<(Pos, BoardPiece)>
    decreases n,
{
    if n == 0 {
        Seq::empty()
    } else {
        let before = entries_below(m, (n - 1) as nat);
        let p = square(n - 1);
        if m.dom().contains(p) {
            before.push((p, m[p]))
        } else {
            before
        }
    }
}

/// The occupied squares of the board with their pieces, rank by rank from a1.
pub open spec fn entries(m: Position) -> Seq<(Pos, BoardPiece)> {
    entries_below(m, 64)
}

/// The part of a position that belongs to one side.
pub open spec fn pieces_of(m: Position, side: Side) -> Position {
    Map::new(|p: Pos| m.dom().contains(p) && m[p].side == side, |p: Pos| m[p])
}

/// The position after `piece` left `mov.from` and arrived on `mov.to`, all
/// other squares unchanged.
pub open spec fn after_move(m: Position, piece: BoardPiece, mov: Move) -> Position {
    m.remove(mov.from).insert(mov.to, piece)
}

/// The kind that starts on the given file of a home rank.
pub open spec fn home_kind(x: int) -> Piece {
    if x == 0 || x == 7 {
        Piece::Rook
    } else if x == 1 || x == 6 {
        Piece::Knight
    } else if x == 2 || x == 5 {
        Piece::Bishop
    } else if x == 3 {
        Piece::Queen
    } else {
        Piece::King
    }
}

/// The piece that stands on `p` when a game begins, if any.
pub open spec fn initial_piece(p: Pos) -> Option<BoardPiece> {
    if !p.on_board() {
        None
    } else if p.y == 0 {
        Some(BoardPiece { kind: home_kind(p.x as int), side: Side::White })
    } else if p.y == 1 {
        Some(BoardPiece { kind: Piece::Pawn, side: Side::White })
    } else if p.y == 6 {
        Some(BoardPiece { kind: Piece::Pawn, side: Side::Black })
    } else if p.y == 7 {
        Some(BoardPiece { kind: home_kind(p.x as int), side: Side::Black })
    } else {
        None
    }
}

/// The position in which a game begins.
pub open spec fn initial_position() -> Position {
    Map::new(|p: Pos| initial_piece(p) is Some, |p: Pos| initial_piece(p)->0)
}

/// What an observer is told when every piece of `m` is removed.
pub open spec fn removals(m: Position) -> Seq<PieceUpdate> {
    entries(m).map_values(|e: (Pos, BoardPiece)| PieceUpdate::Update(e.0, None))
}

/// What an observer is told when every piece of `m` is put on its square.
pub open spec fn placements(m: Position) -> Seq<PieceUpdate> {
    entries(m).map_values(|e: (Pos, BoardPiece)| PieceUpdate::Update(e.0, Some(e.1)))
}

/// The position that an observer holds after it was told of a change to the
/// position `m`.
pub open spec fn told(m: Position, update: PieceUpdate) -> Position {
    match update {
        PieceUpdate::Update(p, Some(piece)) => m.insert(p, piece),
        PieceUpdate::Update(p, None) => m.remove(p),
        PieceUpdate::Modify(p, kind) => if m.dom().contains(p) {
            m.insert(p, BoardPiece { kind, side: m[p].side })
        } else {
            m
        },
    }
}

/// The position that an observer holds after it was told of some changes to
/// the position `m`, one after the other.
pub open spec fn replayed(m: Position, updates: Seq<PieceUpdate>) -> Position
    decreases updates.len(),
{
    if updates.len() == 0 {
        m
    } else {
        told(replayed(m, updates.drop_last()), updates.last())
    }
}

/// A square of the board is the square with its own number.
pub proof fn lemma_square_index(p: Pos)
    requires
        p.on_board(),
    ensures
        0 <= p.index() < 64,
        square(p.index()) == p,
{
}

/// The square with number `i`.
pub(crate) fn square_at(i: usize) -> (r: Pos)
    requires
        i < 64,
    ensures
        r == square(i as int),
        r.on_board(),
        r.index() == i,
{
    Pos { x: (i % 8) as i8, y: (i / 8) as i8 }
}

/// The number of a square.
fn slot(p: &Pos) -> (r: usize)
    requires
        p.on_board(),
    ensures
        r == p.index(),
        r < 64,
        square(r as int) == *p,
{
    (p.y as usize) * 8 + (p.x as usize)
}

/// The piece that stands on `p` when a game begins, if any.
fn initial_at(p: Pos) -> (r: Option<BoardPiece>)
    ensures
        r == initial_piece(p),
{
    if !p.is_on_board() {
        return None;
    }
    let kind = if p.x == 0 || p.x == 7 {
        Piece::Rook
    } else if p.x == 1 || p.x == 6 {
        Piece::Knight
    } else if p.x == 2 || p.x == 5 {
        Piece::Bishop
    } else if p.x == 3 {
        Piece::Queen
    } else {
        Piece::King
    };
    if p.y == 0 {
        Some(BoardPiece { kind, side: Side::White })
    } else if p.y == 1 {
        Some(BoardPiece { kind: Piece::Pawn, side: Side::White })
    } else if p.y == 6 {
        Some(BoardPiece { kind: Piece::Pawn, side: Side::Black })
    } else if p.y == 7 {
        Some(BoardPiece { kind, side: Side::Black })
    } else {
        None
    }
}

impl View for Pieces {
    type V = Position;

    closed spec fn view(&self) -> Position {
        Map::new(
            |p: Pos| p.on_board() && self.grid[p.index()] is Some,
            |p: Pos| self.grid[p.index()]->0,
        )
    }
}

impl Default for Pieces {
    fn default() -> (r: Pieces)
        ensures
            r@ == initial_position(),
            r.pending() == Seq::<PieceUpdate>::empty(),
    {
        let mut grid: [Option<BoardPiece>; 64] = [None; 64];
        let mut i: usize = 0;
        while i < 64
            invariant
                i <= 64,
                forall|k: int| 0 <= k < i ==> grid[k] == initial_piece(square(k)),
            decreases 64 - i,
        {
            grid[i] = initial_at(square_at(i));
            i += 1;
        }
        let r = Pieces { grid, log: Vec::new() };
        assert(r@ =~= initial_position()) by {
            assert forall|p: Pos| p.on_board() implies square(p.index()) == p by {}
        }
        r
    }
}

impl Pieces {
    /// The changes that no observer has collected yet, oldest first.
    pub closed spec fn pending(&self) -> Seq<PieceUpdate> {
        self.log@
    }

    /// Every piece stands on one of the 64 squares.
    pub proof fn lemma_on_board(&self)
        ensures
            forall|p: Pos| self@.dom().contains(p) ==> p.on_board(),
    {
    }

    /// The occupied squares with their pieces, rank by rank from a1.
    pub fn iter(&self) -> (r: Vec<(Pos, BoardPiece)>)
        ensures
            r@ == entries(self@),
    {
        let mut out: Vec<(Pos, BoardPiece)> = Vec::new();
        let mut i: usize = 0;
        while i < 64
            invariant
                i <= 64,
                out@ == entries_below(self@, i as nat),
            decreases 64 - i,
        {
            let p = square_at(i);
            match self.grid[i] {
                Some(piece) => {
                    out.push((p, piece));
                },
                None => {},
            }
            i += 1;
        }
        out
    }

    /// The occupied squares as they would be after the piece on `mov.from` had
    /// moved to `mov.to`, rank by rank from a1.
    pub fn iter_with_move(&self, mov: &Move) -> (r: Vec<(Pos, BoardPiece)>)
        requires
            self@.dom().contains(mov.from),
            mov.to.on_board(),
        ensures
            r@ == entries(after_move(self@, self@[mov.from], *mov)),
    {
        let piece = self.grid[slot(&mov.from)].unwrap();
        self.with_move(mov, piece).iter()
    }

    /// A position of its own in which `piece` has left `mov.from` and stands
    /// on `mov.to`. This position is left as it is.
    pub(crate) fn with_move(&self, mov: &Move, piece: BoardPiece) -> (r: Pieces)
        requires
            mov.to.on_board(),
        ensures
            r@ == after_move(self@, piece, *mov),
            r.pending() == Seq::<PieceUpdate>::empty(),
    {
        let mut grid = self.grid;
        if mov.from.is_on_board() {
            grid[slot(&mov.from)] = None;
        }
        grid[slot(&mov.to)] = Some(piece);
        let r = Pieces { grid, log: Vec::new() };
        assert(r@ =~= after_move(self@, piece, *mov));
        r
    }

    /// The pieces of one side with their squares, rank by rank from a1.
    pub fn of(&self, side: Side) -> (r: Vec<(Pos, BoardPiece)>)
        ensures
            r@ == entries(pieces_of(self@, side)),
    {
        let mut out: Vec<(Pos, BoardPiece)> = Vec::new();
        let mut i: usize = 0;
        while i < 64
            invariant
                i <= 64,
                out@ == entries_below(pieces_of(self@, side), i as nat),
            decreases 64 - i,
        {
            let p = square_at(i);
            match self.grid[i] {
                Some(piece) => {
                    if piece.side == side {
                        out.push((p, piece));
                    }
                },
                None => {},
            }
            i += 1;
        }
        out
    }

    /// The piece on a square, if any.
    pub fn at(&self, pos: &Pos) -> (r: Option<&BoardPiece>)
        ensures
            r is Some == self@.dom().contains(*pos),
            r is Some ==> *r->0 == self@[*pos],
    {
        if pos.is_on_board() {
            self.grid[slot(pos)].as_ref()
        } else {
            None
        }
    }

    /// The piece on a square, to be changed in place. A change made through
    /// the result is not reported to observers.
    pub fn at_mut(&mut self, pos: &Pos) -> (r: Option<&mut BoardPiece>)
        ensures
            r is Some == old(self)@.dom().contains(*pos),
            r is Some ==> *r->0 == old(self)@[*pos] && final(self)@ == old(self)@.insert(
                *pos,
                *final(r->0),
            ),
            r is None ==> final(self)@ == old(self)@,
            final(self).pending() == old(self).pending(),
    {
        if pos.is_on_board() {
            self.grid[slot(pos)].as_mut()
        } else {
            None
        }
    }

    /// Turns the piece on a square into one of the given kind, and says
    /// whether there was a piece to turn.
    pub fn modify(&mut self, pos: &Pos, kind: Piece) -> (r: bool)
        ensures
            r == old(self)@.dom().contains(*pos),
            r ==> final(self)@ == old(self)@.insert(
                *pos,
                BoardPiece { kind, side: old(self)@[*pos].side },
            ) && final(self).pending() == old(self).pending().push(PieceUpdate::Modify(*pos, kind)),
            !r ==> final(self)@ == old(self)@ && final(self).pending() == old(self).pending(),
    {
        if !pos.is_on_board() {
            return false;
        }
        let i = slot(pos);
        match self.grid[i] {
            Some(piece) => {
                self.grid[i] = Some(BoardPiece { kind, side: piece.side });
                self.log.push(PieceUpdate::Modify(*pos, kind));
                assert(self@ =~= old(self)@.insert(*pos, BoardPiece { kind, side: piece.side }));
                true
            },
            None => false,
        }
    }

    /// Removes the piece on a square and returns it.
    pub fn take(&mut self, pos: &Pos) -> (r: Option<BoardPiece>)
        ensures
            r == old(self)@.get(*pos),
            final(self)@ == old(self)@.remove(*pos),
            final(self).pending() == if r is Some {
                old(self).pending().push(PieceUpdate::Update(*pos, None))
            } else {
                old(self).pending()
            },
    {
        if !pos.is_on_board() {
            assert(self@ =~= old(self)@.remove(*pos));
            return None;
        }
        let i = slot(pos);
        let found = self.grid[i];
        if found.is_some() {
            self.grid[i] = None;
            self.log.push(PieceUpdate::Update(*pos, None));
        }
        assert(self@ =~= old(self)@.remove(*pos));
        found
    }

    /// Moves the piece on `mov.from` to `mov.to` and returns the piece that
    /// stood there.
    pub fn move_piece(&mut self, mov: Move) -> (taken: Option<BoardPiece>)
        requires
            old(self)@.dom().contains(mov.from),
            mov.to.on_board(),
        ensures
            taken == old(self)@.get(mov.to),
            final(self)@ == after_move(old(self)@, old(self)@[mov.from], mov),
            final(self).pending() == old(self).pending().push(
                PieceUpdate::Update(mov.from, None),
            ).push(PieceUpdate::Update(mov.to, Some(old(self)@[mov.from]))),
    {
        let from = slot(&mov.from);
        let to = slot(&mov.to);
        let piece = self.grid[from].unwrap();
        let taken = self.grid[to];
        self.grid[from] = None;
        self.grid[to] = Some(piece);
        self.log.push(PieceUpdate::Update(mov.from, None));
        self.log.push(PieceUpdate::Update(mov.to, Some(piece)));
        assert(self@ =~= after_move(old(self)@, piece, mov));
        taken
    }

    /// Hands out the changes made since the last call, oldest first.
    pub fn events(&mut self) -> (r: Vec<PieceUpdate>)
        ensures
            r@ == old(self).pending(),
            final(self).pending() == Seq::<PieceUpdate>::empty(),
            final(self)@ == old(self)@,
    {
        let mut out: Vec<PieceUpdate> = Vec::new();
        out.append(&mut self.log);
        out
    }

    /// Removes every piece.
    pub fn clear(&mut self)
        ensures
            final(self)@ == Map::<Pos, BoardPiece>::empty(),
            final(self).pending() == old(self).pending() + removals(old(self)@),
    {
        let mut i: usize = 0;
        while i < 64
            invariant
                i <= 64,
                forall|k: int| 0 <= k < i ==> self.grid[k] is None,
                forall|k: int| i <= k < 64 ==> self.grid[k] == old(self).grid[k],
                self.log@ == old(self).log@ + entries_below(old(self)@, i as nat).map_values(
                    |e: (Pos, BoardPiece)| PieceUpdate::Update(e.0, None),
                ),
            decreases 64 - i,
        {
            let p = square_at(i);
            if self.grid[i].is_some() {
                self.grid[i] = None;
                self.log.push(PieceUpdate::Update(p, None));
            }
            i += 1;
        }
        assert(self@ =~= Map::<Pos, BoardPiece>::empty());
    }

    /// Puts every piece of the initial position on its square.
    pub fn fill(&mut self)
        ensures
            final(self)@ == old(self)@.union_prefer_right(initial_position()),
            final(self).pending() == old(self).pending() + placements(initial_position()),
    {
        let mut i: usize = 0;
        while i < 64
            invariant
                i <= 64,
                forall|k: int|
                    0 <= k < i ==> self.grid[k] == if initial_piece(square(k)) is Some {
                        initial_piece(square(k))
                    } else {
                        old(self).grid[k]
                    },
                forall|k: int| i <= k < 64 ==> self.grid[k] == old(self).grid[k],
                self.log@ == old(self).log@ + entries_below(
                    initial_position(),
                    i as nat,
                ).map_values(|e: (Pos, BoardPiece)| PieceUpdate::Update(e.0, Some(e.1))),
            decreases 64 - i,
        {
            let p = square_at(i);
            match initial_at(p) {
                Some(piece) => {
                    self.grid[i] = Some(piece);
                    self.log.push(PieceUpdate::Update(p, Some(piece)));
                },
                None => {},
            }
            i += 1;
        }
        assert(self@ =~= old(self)@.union_prefer_right(initial_position())) by {
            assert forall|p: Pos| p.on_board() implies square(p.index()) == p by {}
        }
    }

    /// Removes every piece and sets up the initial position.
    pub fn reset(&mut self)
        ensures
            final(self)@ == initial_position(),
            final(self).pending() == old(self).pending() + removals(old(self)@) + placements(
                initial_position(),
            ),
    {
        self.clear();
        self.fill();
        assert(self@ =~= initial_position());
    }

    /// The pieces of the initial position with their squares, rank by rank from a1.
    pub fn default_board() -> (r: Vec<(Pos, BoardPiece)>)
        ensures
            r@ == entries(initial_position()),
    {
        let mut out: Vec<(Pos, BoardPiece)> = Vec::new();
        let mut i: usize = 0;
        while i < 64
            invariant
                i <= 64,
                out@ == entries_below(initial_position(), i as nat),
            decreases 64 - i,
        {
            let p = square_at(i);
            match initial_at(p) {
                Some(piece) => {
                    out.push((p, piece));
                },
                None => {},
            }
            i += 1;
        }
        out
    }
}

} // verus!
