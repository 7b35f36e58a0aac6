//! The two sides and the coordinate primitives.

use vstd::prelude::*;

pub mod command;
pub mod parse;
pub mod pos;

use pos::PosInt;

verus! {

/// One of the two players.
#[derive(Default, Debug, Clone, Copy, PartialEq, Eq, Hash, PartialOrd, Ord, Structural)]
pub enum Side {
    #[default]
    White,
    Black,
}

impl Side {
    /// The opponent of this side.
    pub open spec fn spec_other(&self) -> Side {
        match self {
            Side::White => Side::Black,
            Side::Black => Side::White,
        }
    }

    /// The rank on which this side's pieces start: 0 for White, 7 for Black.
    pub open spec fn spec_origin(&self) -> int {
        match self {
            Side::White => 0,
            Side::Black => 7,
        }
    }

    /// The direction in which this side's pawns advance: 1 for White, -1 for Black.
    pub open spec fn spec_forward(&self) -> int {
        match self {
            Side::White => 1,
            Side::Black => -1,
        }
    }

    /// The rank that lies `offset` ranks ahead of this side's home rank.
    pub open spec fn spec_offset(&self, offset: int) -> int {
        self.spec_origin() + offset * self.spec_forward()
    }

    /// The opponent of this side.
    #[verifier::when_used_as_spec(spec_other)]
    pub fn other(&self) -> (r: Side)
        ensures
            r == self.spec_other(),
    {
        match self {
            Side::White => Side::Black,
            Side::Black => Side::White,
        }
    }

    /// The rank on which this side's pieces start.
    pub fn origin(&self) -> (r: PosInt)
        ensures
            r == self.spec_origin(),
    {
        match self {
            Side::White => 0,
            Side::Black => 7,
        }
    }

    /// The direction in which this side's pawns advance.
    pub fn forward(&self) -> (r: PosInt)
        ensures
            r == self.spec_forward(),
    {
        match self {
            Side::White => 1,
            Side::Black => -1,
        }
    }

    /// The rank that lies `offset` ranks ahead of this side's home rank.
    pub fn offset(&self, offset: PosInt) -> (r: PosInt)
        requires
            i8::MIN <= self.spec_offset(offset as int) <= i8::MAX,
        ensures
            r == self.spec_offset(offset as int),
    {
        match self {
            Side::White => offset,
            Side::Black => 7 - offset,
        }
    }

    /// Both sides, White first.
    pub fn sides() -> (r: [Side; 2])
        ensures
            r[0] == Side::White,
            r[1] == Side::Black,
    {
        [Side::White, Side::Black]
    }
}

} // verus!
