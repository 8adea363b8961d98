//! Points of the plane in fixed-point coordinates, and the unit-circle test.

use vstd::prelude::*;

verus! {

/// The fixed-point representation of one: a coordinate `n` stands for the
/// real number `n / UNIT`.
pub const UNIT: i64 = 0x20_0000_0000_0000;

/// A point of the plane. Each coordinate is a multiple of `1 / UNIT`.
#[derive(Clone, Copy, Debug, PartialEq, Eq, Structural)]
pub struct Point {
    pub x: i64,
    pub y: i64,
}

impl Point {
    /// The squared distance from the origin, in units of `1 / UNIT^2`.
    pub open spec fn norm_squared(self) -> int {
        self.x * self.x + self.y * self.y
    }

    /// Both coordinates lie in the half-open interval `[0, 1)`.
    pub open spec fn in_unit_square(self) -> bool {
        0 <= self.x < UNIT && 0 <= self.y < UNIT
    }

    /// The point lies strictly inside the unit circle centred at the origin:
    /// `x^2 + y^2 < 1`.
    pub open spec fn in_unit_circle(self) -> bool {
        self.norm_squared() < UNIT * UNIT
    }

    /// The point whose coordinates are the top 53 bits of two 64-bit words.
    pub open spec fn of_words(wx: u64, wy: u64) -> Point {
        Point { x: (wx / 2048) as i64, y: (wy / 2048) as i64 }
    }

    /// Builds a point of the unit square from two 64-bit words, keeping the
    /// 53 most significant bits of each as the fraction.
    pub fn from_words(wx: u64, wy: u64) -> (p: Point)
        ensures
            p == Point::of_words(wx, wy),
            p.in_unit_square(),
    {
        let fx: u64 = wx >> 11;
        let fy: u64 = wy >> 11;
        assert(fx == wx / 2048 && fx < 0x20_0000_0000_0000) by (bit_vector)
            requires
                fx == wx >> 11,
        ;
        assert(fy == wy / 2048 && fy < 0x20_0000_0000_0000) by (bit_vector)
            requires
                fy == wy >> 11,
        ;
        Point { x: fx as i64, y: fy as i64 }
    }
}

/// A coordinate at distance one or more from the origin has a square of one or
/// more.
proof fn lemma_square_outside(c: int)
    by (nonlinear_arith)
    requires
        c <= -UNIT || c >= UNIT,
    ensures
        c * c >= UNIT * UNIT,
{
}

/// A coordinate at distance less than one from the origin has a square less
/// than one.
proof fn lemma_square_inside(c: int)
    by (nonlinear_arith)
    requires
        -UNIT < c < UNIT,
    ensures
        0 <= c * c < UNIT * UNIT,
{
}

/// A square is never negative.
proof fn lemma_square_nonnegative(c: int)
    by (nonlinear_arith)
    ensures
        c * c >= 0,
{
}

/// Tells whether a point lies strictly inside the unit circle centred at the
/// origin. The test is exact: no rounding takes place.
pub fn is_in_unit_circle_fn(p: &Point) -> (inside: bool)
    ensures
        inside == p.in_unit_circle(),
{
    proof {
        lemma_square_nonnegative(p.x as int);
        lemma_square_nonnegative(p.y as int);
    }
    if p.x <= -UNIT || p.x >= UNIT {
        proof {
            lemma_square_outside(p.x as int);
        }
        return false;
    }
    if p.y <= -UNIT || p.y >= UNIT {
        proof {
            lemma_square_outside(p.y as int);
        }
        return false;
    }
    proof {
        lemma_square_inside(p.x as int);
        lemma_square_inside(p.y as int);
    }
    let xx: i128 = (p.x as i128) * (p.x as i128);
    let yy: i128 = (p.y as i128) * (p.y as i128);
    xx + yy < (UNIT as i128) * (UNIT as i128)
}

/// The unit-circle test is pure: evaluated twice on the same point it answers
/// the same both times, namely whether the point lies inside the unit circle.
pub proof fn lemma_unit_circle_is_pure(p: Point, first: bool, second: bool)
    requires
        call_ensures(is_in_unit_circle_fn, (&p,), first),
        call_ensures(is_in_unit_circle_fn, (&p,), second),
    ensures
        first == second,
        first == p.in_unit_circle(),
{
}

} // verus!
