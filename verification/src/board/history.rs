//! The log of the moves that were made.

use vstd::prelude::*;

use crate::piece::BoardPiece;
use crate::util::pos::{Move, Pos};
use crate::util::Side;

verus! {

/// A move that was made, with the piece it captured.
#[derive(Debug, Clone, Copy, PartialEq, Eq)]
pub struct PreviousMove {
    pub mov: Move,
    pub taken: Option<BoardPiece>,
}

/// The moves of a game in the order in which they were made. Entries are only
/// ever added at the end.
pub struct BoardHistory {
    moves: Vec<PreviousMove>,
}

/// The squares that the piece now standing on `p` has stood on, oldest first
/// and ending with `p`, as the log `h` tells it: the log is walked backwards,
/// and each move that ends on the square traced so far continues the trace at
/// the square it started from.
pub open spec fn lineage(h: Seq<PreviousMove>, p: Pos) -> Seq<Pos>
    decreases h.len(),
{
    if h.len() == 0 {
        seq![p]
    } else if h.last().mov.to == p {
        lineage(h.drop_last(), h.last().mov.from).push(p)
    } else {
        lineage(h.drop_last(), p)
    }
}

/// The pieces of `side` that were captured, in the order of their capture.
pub open spec fn captured(h: Seq<PreviousMove>, side: Side) -> Seq<BoardPiece>
    decreases h.len(),
{
    if h.len() == 0 {
        Seq::empty()
    } else {
        let before = captured(h.drop_last(), side);
        match h.last().taken {
            Some(piece) => if piece.side == side {
                before.push(piece)
            } else {
                before
            },
            None => before,
        }
    }
}

impl View for BoardHistory {
    type V = Seq<PreviousMove>;

    closed spec fn view(&self) -> Seq<PreviousMove> {
        self.moves@
    }
}

impl Default for BoardHistory {
    fn default() -> (r: BoardHistory)
        ensures
            r@ == Seq::<PreviousMove>::empty(),
    {
        BoardHistory { moves: Vec::new() }
    }
}

impl BoardHistory {
    /// Appends a move and what it captured.
    pub fn add(&mut self, mov: Move, taken: Option<BoardPiece>)
        ensures
            final(self)@ == old(self)@.push(PreviousMove { mov, taken }),
    {
        self.moves.push(PreviousMove { mov, taken });
    }

    /// The number of moves made.
    pub fn len(&self) -> (r: usize)
        ensures
            r == self@.len(),
    {
        self.moves.len()
    }

    /// Forgets every move.
    pub fn reset(&mut self)
        ensures
            final(self)@ == Seq::<PreviousMove>::empty(),
    {
        self.moves.clear();
    }

    /// The captured pieces of `side`, in the order of their capture.
    pub fn taken(&self, side: Side) -> (r: Vec<BoardPiece>)
        ensures
            r@ == captured(self@, side),
    {
        let mut out: Vec<BoardPiece> = Vec::new();
        let mut i: usize = 0;
        while i < self.moves.len()
            invariant
                i <= self.moves.len(),
                out@ == captured(self@.take(i as int), side),
            decreases self.moves.len() - i,
        {
            proof {
                let next = self@.take(i as int + 1);
                assert(next.drop_last() =~= self@.take(i as int));
                assert(next.last() == self@[i as int]);
            }
            match self.moves[i].taken {
                Some(piece) => {
                    if piece.side == side {
                        out.push(piece);
                    }
                },
                None => {},
            }
            i += 1;
        }
        assert(self@.take(i as int) =~= self@);
        out
    }

    /// The lineage of the piece now standing on `pos`: the squares it has stood
    /// on, oldest first and ending with `pos`.
    pub fn of(&self, pos: Pos) -> (r: Vec<Pos>)
        ensures
            r@ == lineage(self@, pos),
    {
        // The squares found so far, latest first; `tail` is the same list, oldest first.
        let mut back: Vec<Pos> = Vec::new();
        let ghost mut tail: Seq<Pos> = Seq::empty();
        let mut cur = pos;
        let mut i: usize = self.moves.len();
        assert(self@.take(i as int) =~= self@);
        while i > 0
            invariant
                i <= self.moves.len(),
                back@.len() == tail.len(),
                forall|k: int| 0 <= k < tail.len() ==> back@[k] == tail[tail.len() - 1 - k],
                lineage(self@, pos) == lineage(self@.take(i as int), cur) + tail,
            decreases i,
        {
            proof {
                let upto = self@.take(i as int);
                assert(upto.drop_last() =~= self@.take(i as int - 1));
                assert(upto.last() == self@[i as int - 1]);
            }
            i -= 1;
            if self.moves[i].mov.to == cur {
                proof {
                    let shorter = lineage(self@.take(i as int), self@[i as int].mov.from);
                    assert(shorter.push(cur) + tail =~= shorter + (seq![cur] + tail));
                    tail = seq![cur] + tail;
                }
                back.push(cur);
                cur = self.moves[i].mov.from;
            }
        }
        let mut out: Vec<Pos> = Vec::new();
        out.push(cur);
        let mut k: usize = back.len();
        while k > 0
            invariant
                k <= back.len(),
                back@.len() == tail.len(),
                forall|j: int| 0 <= j < tail.len() ==> back@[j] == tail[tail.len() - 1 - j],
                out@ == seq![cur] + tail.take(tail.len() - k),
            decreases k,
        {
            k -= 1;
            out.push(back[k]);
            assert(out@ =~= seq![cur] + tail.take(tail.len() - k));
        }
        assert(tail.take(tail.len() as int) =~= tail);
        out
    }
}

} // verus!
