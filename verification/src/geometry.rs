//! How squares lie on the board along the vectors of the rules.

use vstd::prelude::*;

use crate::piece::step::Step;
use crate::rules::oriented;
use crate::util::pos::Pos;
use crate::util::Side;

verus! {

/// Whether a square is one of the four corners of the board.
pub open spec fn is_corner(p: Pos) -> bool {
    (p.x == 0 || p.x == 7) && (p.y == 0 || p.y == 7)
}

/// One more step of `v` from the `n - 1`-th square of a ray gives the `n`-th,
/// and neither leaves the range of the coordinates.
pub proof fn lemma_next_step(from: Pos, v: Pos, n: int)
    requires
        from.on_board(),
        -3 <= v.x <= 3,
        -3 <= v.y <= 3,
        1 <= n <= 8,
    ensures
        from.stepped(v, n).x == from.stepped(v, n - 1).x + v.x,
        from.stepped(v, n).y == from.stepped(v, n - 1).y + v.y,
        from.stepped(v, n).x == from.x + v.x * n,
        from.stepped(v, n).y == from.y + v.y * n,
        from.stepped(v, 0) == from,
{
    assert(v.x * n == v.x * (n - 1) + v.x) by (nonlinear_arith);
    assert(v.y * n == v.y * (n - 1) + v.y) by (nonlinear_arith);
    assert(-24 <= v.x * n <= 24) by (nonlinear_arith)
        requires
            -3 <= v.x <= 3,
            1 <= n <= 8,
    ;
    assert(-24 <= v.y * n <= 24) by (nonlinear_arith)
        requires
            -3 <= v.y <= 3,
            1 <= n <= 8,
    ;
    assert(-24 <= v.x * (n - 1) <= 24) by (nonlinear_arith)
        requires
            -3 <= v.x <= 3,
            1 <= n <= 8,
    ;
    assert(-24 <= v.y * (n - 1) <= 24) by (nonlinear_arith)
        requires
            -3 <= v.y <= 3,
            1 <= n <= 8,
    ;
}

/// A ray that has left the board does not come back.
pub proof fn lemma_leaves_board(from: Pos, v: Pos, n: int, later: int)
    requires
        from.on_board(),
        -3 <= v.x <= 3,
        -3 <= v.y <= 3,
        1 <= n <= later <= 8,
        !from.stepped(v, n).on_board(),
    ensures
        !from.stepped(v, later).on_board(),
{
    lemma_next_step(from, v, n);
    lemma_next_step(from, v, later);
    let (px, py, vx, vy) = (from.x as int, from.y as int, v.x as int, v.y as int);
    if px + vx * n < 0 {
        assert(px + vx * later < 0) by (nonlinear_arith)
            requires
                px + vx * n < 0,
                px >= 0,
                1 <= n <= later,
        ;
    } else if px + vx * n >= 8 {
        assert(px + vx * later >= 8) by (nonlinear_arith)
            requires
                px + vx * n >= 8,
                px < 8,
                1 <= n <= later,
        ;
    } else if py + vy * n < 0 {
        assert(py + vy * later < 0) by (nonlinear_arith)
            requires
                py + vy * n < 0,
                py >= 0,
                1 <= n <= later,
        ;
    } else {
        assert(py + vy * later >= 8) by (nonlinear_arith)
            requires
                py + vy * n >= 8,
                py < 8,
                1 <= n <= later,
        ;
    }
}

/// Different numbers of steps of a vector lead to different squares.
pub proof fn lemma_steps_apart(from: Pos, v: Pos, n1: int, n2: int)
    requires
        from.on_board(),
        -3 <= v.x <= 3,
        -3 <= v.y <= 3,
        v.x != 0 || v.y != 0,
        1 <= n1 < n2 <= 8,
    ensures
        from.stepped(v, n1) != from.stepped(v, n2),
{
    let (vx, vy) = (v.x as int, v.y as int);
    assert(-24 <= vx * n1 <= 24 && -24 <= vx * n2 <= 24 && -24 <= vy * n1 <= 24 && -24 <= vy * n2
        <= 24) by (nonlinear_arith)
        requires
            1 <= n1 < n2 <= 8,
            -3 <= vx <= 3,
            -3 <= vy <= 3,
    ;
    assert(vx != 0 ==> vx * n1 != vx * n2) by (nonlinear_arith)
        requires
            n1 < n2,
    ;
    assert(vy != 0 ==> vy * n1 != vy * n2) by (nonlinear_arith)
        requires
            n1 < n2,
    ;
}

/// No corner lies strictly between two squares of the board that lie on a
/// line.
pub proof fn lemma_corner_not_between(from: Pos, v: Pos, k: int, n: int)
    requires
        from.on_board(),
        from.stepped(v, n).on_board(),
        1 <= k < n < 8,
        -3 <= v.x <= 3,
        -3 <= v.y <= 3,
        v.x != 0 || v.y != 0,
    ensures
        !is_corner(from.stepped(v, k)),
{
    let (vx, vy) = (v.x as int, v.y as int);
    assert(-24 <= vx * k <= 24 && -24 <= vx * n <= 24 && -24 <= vy * k <= 24 && -24 <= vy * n <= 24)
        by (nonlinear_arith)
        requires
            1 <= k < n < 8,
            -3 <= vx <= 3,
            -3 <= vy <= 3,
    ;
    assert(vx > 0 ==> 0 < vx * k < vx * n) by (nonlinear_arith)
        requires
            1 <= k < n,
    ;
    assert(vx < 0 ==> vx * n < vx * k < 0) by (nonlinear_arith)
        requires
            1 <= k < n,
    ;
    assert(vy > 0 ==> 0 < vy * k < vy * n) by (nonlinear_arith)
        requires
            1 <= k < n,
    ;
    assert(vy < 0 ==> vy * n < vy * k < 0) by (nonlinear_arith)
        requires
            1 <= k < n,
    ;
}

/// A vector of a slide moves by at most one file and one rank.
pub proof fn lemma_slide_directions(step: Step)
    requires
        !step.spec_once(),
    ensures
        forall|i: int|
            0 <= i < step.spec_directions().len() ==> {
                let d = #[trigger] step.spec_directions()[i];
                -1 <= d.x <= 1 && -1 <= d.y <= 1
            },
{
}

/// The vectors of a rule differ from one another.
pub proof fn lemma_directions_distinct(step: Step)
    ensures
        forall|i: int, j: int|
            0 <= i < j < step.spec_directions().len() ==> #[trigger] step.spec_directions()[i]
                != #[trigger] step.spec_directions()[j],
{
}

/// Two vectors of a rule never lead to the same square, however many steps
/// are taken of each, and neither does one vector by different numbers of
/// steps.
pub proof fn lemma_rays_apart(
    step: Step,
    side: Side,
    from: Pos,
    i1: int,
    n1: int,
    i2: int,
    n2: int,
)
    requires
        from.on_board(),
        0 <= i1 < step.spec_directions().len(),
        0 <= i2 < step.spec_directions().len(),
        1 <= n1 < 8,
        1 <= n2 < 8,
        step.spec_once() ==> n1 == 1 && n2 == 1,
        i1 != i2 || n1 != n2,
    ensures
        from.stepped(oriented(step.spec_directions()[i1], side), n1) != from.stepped(
            oriented(step.spec_directions()[i2], side),
            n2,
        ),
{
    let dirs = step.spec_directions();
    step.lemma_directions();
    lemma_directions_distinct(step);
    let d1 = dirs[i1];
    let d2 = dirs[i2];
    let v1 = oriented(d1, side);
    let v2 = oriented(d2, side);
    if i1 < i2 {
        assert(dirs[i1] != dirs[i2]);
    } else if i2 < i1 {
        assert(dirs[i2] != dirs[i1]);
    }
    assert(i1 != i2 ==> v1 != v2);
    let (x1, y1, x2, y2) = (v1.x as int, v1.y as int, v2.x as int, v2.y as int);
    assert(-24 <= x1 * n1 <= 24 && -24 <= y1 * n1 <= 24) by (nonlinear_arith)
        requires
            1 <= n1 < 8,
            -3 <= x1 <= 3,
            -3 <= y1 <= 3,
    ;
    assert(-24 <= x2 * n2 <= 24 && -24 <= y2 * n2 <= 24) by (nonlinear_arith)
        requires
            1 <= n2 < 8,
            -3 <= x2 <= 3,
            -3 <= y2 <= 3,
    ;
    if !step.spec_once() {
        lemma_slide_directions(step);
        assert(-1 <= d1.x <= 1 && -1 <= d1.y <= 1 && -1 <= d2.x <= 1 && -1 <= d2.y <= 1);
        assert(-1 <= x1 <= 1 && -1 <= y1 <= 1 && -1 <= x2 <= 1 && -1 <= y2 <= 1);
        assert(x1 * n1 == if x1 == 1 {
            n1
        } else if x1 == -1 {
            -n1
        } else {
            0
        }) by (nonlinear_arith)
            requires
                -1 <= x1 <= 1,
        ;
        assert(y1 * n1 == if y1 == 1 {
            n1
        } else if y1 == -1 {
            -n1
        } else {
            0
        }) by (nonlinear_arith)
            requires
                -1 <= y1 <= 1,
        ;
        assert(x2 * n2 == if x2 == 1 {
            n2
        } else if x2 == -1 {
            -n2
        } else {
            0
        }) by (nonlinear_arith)
            requires
                -1 <= x2 <= 1,
        ;
        assert(y2 * n2 == if y2 == 1 {
            n2
        } else if y2 == -1 {
            -n2
        } else {
            0
        }) by (nonlinear_arith)
            requires
                -1 <= y2 <= 1,
        ;
    }
    let a = from.stepped(v1, n1);
    let b = from.stepped(v2, n2);
    assert(a.x == from.x + x1 * n1 && a.y == from.y + y1 * n1);
    assert(b.x == from.x + x2 * n2 && b.y == from.y + y2 * n2);
    assert(x1 != 0 || y1 != 0);
    assert(x2 != 0 || y2 != 0);
    if a == b {
        assert(x1 * n1 == x2 * n2 && y1 * n1 == y2 * n2);
        if step.spec_once() {
            assert(x1 == x2 && y1 == y2);
            assert(v1 == v2);
        } else {
            assert(x1 == x2 && y1 == y2 && n1 == n2);
            assert(v1 == v2);
        }
    }
}

} // verus!
