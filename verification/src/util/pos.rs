//! Squares, direction vectors and moves.

use vstd::prelude::*;
use vstd::std_specs::ops::{AddSpecImpl, MulSpecImpl, SubSpecImpl};

verus! {

pub type PosInt = i8;

/// A pair of file and rank. As a square it lies on the board when both are in
/// `0..8`; the same type serves as a direction vector.
#[derive(Default, Debug, Clone, Copy, PartialEq, Eq, Hash, Structural)]
pub struct Pos {
    pub x: PosInt,
    pub y: PosInt,
}

/// A move from one square to another, with no legality attached.
#[derive(Debug, Clone, Copy, PartialEq, Eq, Hash, Structural)]
pub struct Move {
    pub from: Pos,
    pub to: Pos,
}

/// The pair with file `x` and rank `y`.
pub open spec fn pos(x: int, y: int) -> Pos {
    Pos { x: x as i8, y: y as i8 }
}

/// Whether an integer is a value of `PosInt`.
pub open spec fn fits(v: int) -> bool {
    i8::MIN <= v <= i8::MAX
}

impl Pos {
    pub const CHAR_MIN: char = 'a';

    /// Inclusive
    pub const CHAR_MAX: char = 'h';

    /// Whether this is one of the 64 squares.
    pub open spec fn on_board(self) -> bool {
        0 <= self.x < 8 && 0 <= self.y < 8
    }

    /// The number of this square when the board is read rank by rank from a1.
    pub open spec fn index(self) -> int {
        self.y * 8 + self.x
    }

    /// The square reached from this one by `n` steps of `v`.
    pub open spec fn stepped(self, v: Pos, n: int) -> Pos {
        Pos { x: (self.x + v.x * n) as i8, y: (self.y + v.y * n) as i8 }
    }

    /// This vector with both parts multiplied by `k`.
    pub open spec fn scaled(self, k: int) -> Pos {
        Pos { x: (self.x * k) as i8, y: (self.y * k) as i8 }
    }

    /// The larger of the two parts.
    pub open spec fn spec_max(self) -> int {
        if self.x > self.y {
            self.x as int
        } else {
            self.y as int
        }
    }

    /// Both parts without their sign.
    pub open spec fn spec_abs(self) -> Pos {
        Pos {
            x: (if self.x < 0 { -self.x } else { self.x as int }) as i8,
            y: (if self.y < 0 { -self.y } else { self.y as int }) as i8,
        }
    }

    /// The four straight directions.
    pub fn directions() -> (r: [Pos; 4])
        ensures
            r@ == seq![
                pos(1, 0),
                pos(-1, 0),
                pos(0, 1),
                pos(0, -1),
            ],
    {
        let r = [
            Pos { x: 1, y: 0 },
            Pos { x: -1, y: 0 },
            Pos { x: 0, y: 1 },
            Pos { x: 0, y: -1 },
        ];
        assert(r@ =~= seq![
            pos(1, 0),
            pos(-1, 0),
            pos(0, 1),
            pos(0, -1),
        ]);
        r
    }

    /// The four diagonal directions.
    pub fn diagonals() -> (r: [Pos; 4])
        ensures
            r@ == seq![
                pos(1, 1),
                pos(-1, -1),
                pos(-1, 1),
                pos(1, -1),
            ],
    {
        let r = [
            Pos { x: 1, y: 1 },
            Pos { x: -1, y: -1 },
            Pos { x: -1, y: 1 },
            Pos { x: 1, y: -1 },
        ];
        assert(r@ =~= seq![
            pos(1, 1),
            pos(-1, -1),
            pos(-1, 1),
            pos(1, -1),
        ]);
        r
    }

    /// The larger of the two parts.
    pub fn max(&self) -> (r: PosInt)
        ensures
            r == self.spec_max(),
    {
        if self.x > self.y {
            self.x
        } else {
            self.y
        }
    }

    /// Both parts without their sign.
    pub fn abs(self) -> (r: Pos)
        requires
            self.x > i8::MIN,
            self.y > i8::MIN,
        ensures
            r == self.spec_abs(),
    {
        Pos {
            x: if self.x < 0 { -self.x } else { self.x },
            y: if self.y < 0 { -self.y } else { self.y },
        }
    }

    /// Whether this is one of the 64 squares.
    pub fn is_on_board(&self) -> (r: bool)
        ensures
            r == self.on_board(),
    {
        self.x >= 0 && self.x < 8 && self.y >= 0 && self.y < 8
    }
}

impl Move {
    /// The move from `from` to `to`.
    pub fn new(from: Pos, to: Pos) -> (r: Move)
        ensures
            r == (Move { from, to }),
    {
        Move { from, to }
    }
}

impl core::ops::Add for Pos {
    type Output = Pos;

    fn add(self, other: Pos) -> (r: Pos) {
        Pos { x: self.x + other.x, y: self.y + other.y }
    }
}

impl AddSpecImpl for Pos {
    open spec fn obeys_add_spec() -> bool {
        true
    }

    open spec fn add_req(self, other: Pos) -> bool {
        fits(self.x + other.x) && fits(self.y + other.y)
    }

    open spec fn add_spec(self, other: Pos) -> Pos {
        Pos { x: (self.x + other.x) as i8, y: (self.y + other.y) as i8 }
    }
}

impl core::ops::Sub for Pos {
    type Output = Pos;

    fn sub(self, other: Pos) -> (r: Pos) {
        Pos { x: self.x - other.x, y: self.y - other.y }
    }
}

impl SubSpecImpl for Pos {
    open spec fn obeys_sub_spec() -> bool {
        true
    }

    open spec fn sub_req(self, other: Pos) -> bool {
        fits(self.x - other.x) && fits(self.y - other.y)
    }

    open spec fn sub_spec(self, other: Pos) -> Pos {
        Pos { x: (self.x - other.x) as i8, y: (self.y - other.y) as i8 }
    }
}

impl core::ops::Mul for Pos {
    type Output = Pos;

    fn mul(self, other: Pos) -> (r: Pos) {
        Pos { x: self.x * other.x, y: self.y * other.y }
    }
}

impl MulSpecImpl for Pos {
    open spec fn obeys_mul_spec() -> bool {
        true
    }

    open spec fn mul_req(self, other: Pos) -> bool {
        fits(self.x * other.x) && fits(self.y * other.y)
    }

    open spec fn mul_spec(self, other: Pos) -> Pos {
        Pos { x: (self.x * other.x) as i8, y: (self.y * other.y) as i8 }
    }
}

impl core::ops::Mul<i8> for Pos {
    type Output = Pos;

    fn mul(self, scalar: i8) -> (r: Pos) {
        Pos { x: self.x * scalar, y: self.y * scalar }
    }
}

impl MulSpecImpl<i8> for Pos {
    open spec fn obeys_mul_spec() -> bool {
        true
    }

    open spec fn mul_req(self, scalar: i8) -> bool {
        fits(self.x * scalar) && fits(self.y * scalar)
    }

    open spec fn mul_spec(self, scalar: i8) -> Pos {
        self.scaled(scalar as int)
    }
}

} // verus!
