//! Two-dimensional vectors of fixed-point scalars.
use vstd::prelude::*;
use crate::fixed::{
    isqrt, isqrt_up, lemma_product_fits, mul_div, mul_div_away,
    ceil_sqrt, div_away_from_zero, div_toward_zero, floor_sqrt, fx_mul, lemma_cancel_factor,
    lemma_ceil_sqrt, lemma_div_away_from_zero_bounds, lemma_div_toward_zero_bounds,
    lemma_floor_sqrt_exists, lemma_square_of_product, lemma_square_ordered,
    lemma_square_reflects_order, magnitude, ONE,
};

verus! {

/// A vector of the plane with unbounded integer components: the mathematical
/// value that a [`Vec2`] stands for.
pub struct Vector {
    pub x: int,
    pub y: int,
}

impl Vector {
    /// The zero vector.
    pub open spec fn zero() -> Vector {
        Vector { x: 0, y: 0 }
    }

    /// Componentwise sum.
    pub open spec fn plus(self, other: Vector) -> Vector {
        Vector { x: self.x + other.x, y: self.y + other.y }
    }

    /// Componentwise difference.
    pub open spec fn minus(self, other: Vector) -> Vector {
        Vector { x: self.x - other.x, y: self.y - other.y }
    }

    /// The vector of the same length that points the opposite way.
    pub open spec fn negated(self) -> Vector {
        Vector { x: -self.x, y: -self.y }
    }

    /// The scalar product.
    pub open spec fn dot(self, other: Vector) -> int {
        self.x * other.x + self.y * other.y
    }

    /// The perpendicular dot product: positive when `other` lies
    /// counter-clockwise of `self`.
    pub open spec fn cross(self, other: Vector) -> int {
        self.x * other.y - self.y * other.x
    }

    /// The squared length.
    pub open spec fn norm_sq(self) -> int {
        self.x * self.x + self.y * self.y
    }

    /// The larger of the two component magnitudes.
    pub open spec fn reach(self) -> int {
        if magnitude(self.x) >= magnitude(self.y) {
            magnitude(self.x)
        } else {
            magnitude(self.y)
        }
    }

    /// The fixed-point product with a scalar, each component rounded toward
    /// zero.
    pub open spec fn scaled(self, factor: int) -> Vector {
        Vector { x: fx_mul(self.x, factor), y: fx_mul(self.y, factor) }
    }

    /// The vector along `self` whose length is `target`, each component
    /// rounded toward zero so that the length never exceeds `target`. The
    /// zero vector has no direction and stays zero.
    pub open spec fn shrunk_to(self, target: int) -> Vector {
        if self.norm_sq() == 0 {
            Vector::zero()
        } else {
            let len = ceil_sqrt(self.norm_sq());
            Vector {
                x: div_toward_zero(self.x * target, len),
                y: div_toward_zero(self.y * target, len),
            }
        }
    }

    /// The vector along `self` whose length is `target`, each component
    /// rounded away from zero so that the length never falls below `target`.
    /// The zero vector has no direction and stays zero.
    pub open spec fn stretched_to(self, target: int) -> Vector {
        if self.norm_sq() == 0 {
            Vector::zero()
        } else {
            let len = floor_sqrt(self.norm_sq());
            Vector {
                x: div_away_from_zero(self.x * target, len),
                y: div_away_from_zero(self.y * target, len),
            }
        }
    }

    /// The unit vector along `self`, or the zero vector when `self` is zero.
    pub open spec fn normalised(self) -> Vector {
        self.shrunk_to(ONE as int)
    }

    /// Both components can be held in 64 bits.
    pub open spec fn fits(self) -> bool {
        i64::MIN <= self.x <= i64::MAX && i64::MIN <= self.y <= i64::MAX
    }
}

/// A vector of the plane with 64-bit fixed-point components.
#[derive(Clone, Copy, Debug, PartialEq, Eq, Structural)]
pub struct Vec2 {
    pub x: i64,
    pub y: i64,
}

impl View for Vec2 {
    type V = Vector;

    open spec fn view(&self) -> Vector {
        Vector { x: self.x as int, y: self.y as int }
    }
}

/// Only the zero vector has squared length zero, and a squared length is
/// never negative.
pub proof fn lemma_norm_sq_zero(v: Vector)
    by (nonlinear_arith)
    ensures
        v.norm_sq() >= 0,
        v.norm_sq() == 0 <==> v == Vector::zero(),
        v.norm_sq() >= v.reach() * v.reach(),
        v.norm_sq() <= 2 * (v.reach() * v.reach()),
        v.norm_sq() >= v.x * v.x,
        v.norm_sq() >= v.y * v.y,
        v.reach() >= 0,
        v.reach() == 0 <==> v == Vector::zero(),
{
}

/// How the two square roots of a squared length relate to the components:
/// no component exceeds the rounded-down length, and the rounded-up length
/// is at most twice the larger component.
pub proof fn lemma_lengths(v: Vector)
    requires
        v.norm_sq() > 0,
    ensures
        1 <= v.reach() <= floor_sqrt(v.norm_sq()),
        magnitude(v.x) <= floor_sqrt(v.norm_sq()),
        magnitude(v.y) <= floor_sqrt(v.norm_sq()),
        floor_sqrt(v.norm_sq()) <= ceil_sqrt(v.norm_sq()) <= 2 * v.reach(),
        v.norm_sq() <= ceil_sqrt(v.norm_sq()) * ceil_sqrt(v.norm_sq()),
        floor_sqrt(v.norm_sq()) * floor_sqrt(v.norm_sq()) <= v.norm_sq(),
{
    let n = v.norm_sq();
    let m = v.reach();
    let lo = floor_sqrt(n);
    let hi = ceil_sqrt(n);
    lemma_norm_sq_zero(v);
    lemma_floor_sqrt_exists(n);
    lemma_ceil_sqrt(n);
    // m * m <= n < (lo + 1) * (lo + 1), so m <= lo
    lemma_square_reflects_order(m, lo + 1);
    // (hi - 1) * (hi - 1) < n <= 2 * m * m <= (2 * m) * (2 * m), so hi - 1 < 2 * m
    assert(2 * (m * m) <= (2 * m) * (2 * m)) by (nonlinear_arith)
        requires
            m >= 0,
    ;
    lemma_square_reflects_order(hi - 1, 2 * m);
}

/// A vector shrunk to a length stays within that length, keeps at least half
/// of it along its larger component, and is zero only if the vector is.
pub proof fn lemma_shrunk_to(v: Vector, target: int)
    requires
        v.norm_sq() > 0,
        target >= 0,
    ensures
        v.shrunk_to(target).norm_sq() <= target * target,
        magnitude(v.shrunk_to(target).x) <= target,
        magnitude(v.shrunk_to(target).y) <= target,
        2 * v.shrunk_to(target).reach() >= target - 1,
{
    let w = v.shrunk_to(target);
    let n = v.norm_sq();
    let len = ceil_sqrt(n);
    let m = v.reach();
    lemma_lengths(v);
    lemma_norm_sq_zero(v);
    let a = magnitude(w.x);
    let b = magnitude(w.y);
    let ax = magnitude(v.x);
    let ay = magnitude(v.y);
    lemma_div_toward_zero_bounds(v.x * target, len);
    lemma_div_toward_zero_bounds(v.y * target, len);
    assert(magnitude(v.x * target) == ax * target && magnitude(v.y * target) == ay * target)
        by (nonlinear_arith)
        requires
            target >= 0,
            ax == magnitude(v.x),
            ay == magnitude(v.y),
    ;
    assert(n == ax * ax + ay * ay) by (nonlinear_arith)
        requires
            n == v.x * v.x + v.y * v.y,
            ax == magnitude(v.x),
            ay == magnitude(v.y),
    ;
    lemma_bounded_by_scaled_squares(a, b, len, ax, ay, target, n);
    assert(w.norm_sq() == a * a + b * b) by (nonlinear_arith)
        requires
            a == magnitude(w.x),
            b == magnitude(w.y),
            w.norm_sq() == w.x * w.x + w.y * w.y,
    ;
    lemma_norm_sq_zero(w);
    assert(a * a < (target + 1) * (target + 1) && b * b < (target + 1) * (target + 1))
        by (nonlinear_arith)
        requires
            a * a + b * b <= target * target,
            target >= 0,
    ;
    lemma_square_reflects_order(a, target + 1);
    lemma_square_reflects_order(b, target + 1);
    // the larger component keeps at least half of the target
    let c = if ax >= ay { a } else { b };
    assert(m * target < (c + 1) * len);
    assert(2 * (c + 1) > target) by (nonlinear_arith)
        requires
            m * target < (c + 1) * len,
            len <= 2 * m,
            m >= 1,
            c >= 0,
            target >= 0,
    ;
}

/// If `a * len <= ax * t` and `b * len <= ay * t` for non-negative integers
/// whose squares satisfy `ax² + ay² = n <= len²`, then `a² + b² <= t²`.
proof fn lemma_bounded_by_scaled_squares(
    a: int,
    b: int,
    len: int,
    ax: int,
    ay: int,
    t: int,
    n: int,
)
    requires
        0 <= a,
        0 <= b,
        0 < len,
        0 <= ax,
        0 <= ay,
        0 <= t,
        a * len <= ax * t,
        b * len <= ay * t,
        n == ax * ax + ay * ay,
        n <= len * len,
    ensures
        a * a + b * b <= t * t,
{
    assert(0 <= a * len && 0 <= b * len) by (nonlinear_arith)
        requires
            0 <= a,
            0 <= b,
            0 < len,
    ;
    lemma_square_ordered(a * len, ax * t);
    lemma_square_ordered(b * len, ay * t);
    lemma_square_of_product(a, len);
    lemma_square_of_product(b, len);
    lemma_square_of_product(ax, t);
    lemma_square_of_product(ay, t);
    let l2 = len * len;
    let t2 = t * t;
    assert((a * a + b * b) * l2 == (a * a) * l2 + (b * b) * l2) by (nonlinear_arith);
    assert((ax * ax) * t2 + (ay * ay) * t2 == n * t2) by (nonlinear_arith)
        requires
            n == ax * ax + ay * ay,
    ;
    assert(n * t2 <= l2 * t2) by (nonlinear_arith)
        requires
            n <= l2,
            t2 >= 0,
    ;
    assert(t2 >= 0 && l2 > 0) by (nonlinear_arith)
        requires
            t2 == t * t,
            l2 == len * len,
            len > 0,
    ;
    assert(l2 * t2 == t2 * l2) by (nonlinear_arith);
    lemma_cancel_factor(a * a + b * b, t2, l2);
}

/// If `a * len >= ax * t` and `b * len >= ay * t` for non-negative integers
/// whose squares satisfy `ax² + ay² = n >= len²`, then `a² + b² >= t²`.
proof fn lemma_bounded_below_by_scaled_squares(
    a: int,
    b: int,
    len: int,
    ax: int,
    ay: int,
    t: int,
    n: int,
)
    requires
        0 <= a,
        0 <= b,
        0 < len,
        0 <= ax,
        0 <= ay,
        0 <= t,
        a * len >= ax * t,
        b * len >= ay * t,
        n == ax * ax + ay * ay,
        n >= len * len,
    ensures
        a * a + b * b >= t * t,
{
    assert(0 <= ax * t && 0 <= ay * t) by (nonlinear_arith)
        requires
            0 <= ax,
            0 <= ay,
            0 <= t,
    ;
    lemma_square_ordered(ax * t, a * len);
    lemma_square_ordered(ay * t, b * len);
    lemma_square_of_product(a, len);
    lemma_square_of_product(b, len);
    lemma_square_of_product(ax, t);
    lemma_square_of_product(ay, t);
    let l2 = len * len;
    let t2 = t * t;
    assert((a * a + b * b) * l2 == (a * a) * l2 + (b * b) * l2) by (nonlinear_arith);
    assert((ax * ax) * t2 + (ay * ay) * t2 == n * t2) by (nonlinear_arith)
        requires
            n == ax * ax + ay * ay,
    ;
    assert(n * t2 >= l2 * t2) by (nonlinear_arith)
        requires
            n >= l2,
            t2 >= 0,
    ;
    assert(t2 >= 0 && l2 > 0) by (nonlinear_arith)
        requires
            t2 == t * t,
            l2 == len * len,
            len > 0,
    ;
    assert(l2 * t2 == t2 * l2) by (nonlinear_arith);
    lemma_cancel_factor(t2, a * a + b * b, l2);
}

/// A vector stretched to a length reaches that length, and neither component
/// exceeds it.
pub proof fn lemma_stretched_to(v: Vector, target: int)
    requires
        v.norm_sq() > 0,
        target >= 0,
    ensures
        target * target <= v.stretched_to(target).norm_sq() <= 2 * (target * target),
        magnitude(v.stretched_to(target).x) <= target,
        magnitude(v.stretched_to(target).y) <= target,
{
    let w = v.stretched_to(target);
    let n = v.norm_sq();
    let len = floor_sqrt(n);
    lemma_lengths(v);
    lemma_norm_sq_zero(v);
    let a = magnitude(w.x);
    let b = magnitude(w.y);
    let ax = magnitude(v.x);
    let ay = magnitude(v.y);
    lemma_div_away_from_zero_bounds(v.x * target, len);
    lemma_div_away_from_zero_bounds(v.y * target, len);
    assert(magnitude(v.x * target) == ax * target && magnitude(v.y * target) == ay * target)
        by (nonlinear_arith)
        requires
            target >= 0,
            ax == magnitude(v.x),
            ay == magnitude(v.y),
    ;
    assert(n == ax * ax + ay * ay) by (nonlinear_arith)
        requires
            n == v.x * v.x + v.y * v.y,
            ax == magnitude(v.x),
            ay == magnitude(v.y),
    ;
    lemma_bounded_below_by_scaled_squares(a, b, len, ax, ay, target, n);
    assert(w.norm_sq() == a * a + b * b) by (nonlinear_arith)
        requires
            a == magnitude(w.x),
            b == magnitude(w.y),
            w.norm_sq() == w.x * w.x + w.y * w.y,
    ;
    // a * len < ax * target + len <= len * target + len, so a <= target
    assert(a <= target) by (nonlinear_arith)
        requires
            a * len < ax * target + len,
            ax <= len,
            len > 0,
            target >= 0,
            a >= 0,
    ;
    assert(b <= target) by (nonlinear_arith)
        requires
            b * len < ay * target + len,
            ay <= len,
            len > 0,
            target >= 0,
            b >= 0,
    ;
    lemma_square_ordered(a, target);
    lemma_square_ordered(b, target);
}

/// The distance of a 64-bit integer from zero.
pub fn magnitude_of(a: i64) -> (r: u128)
    ensures
        r == magnitude(a as int),
        r <= 0x8000_0000_0000_0000,
{
    if a >= 0 {
        a as u128
    } else {
        (-(a as i128)) as u128
    }
}

impl Vec2 {
    /// The vector with the given components.
    pub fn new(x: i64, y: i64) -> (r: Vec2)
        ensures
            r.x == x,
            r.y == y,
    {
        Vec2 { x, y }
    }

    /// The zero vector.
    pub fn zero() -> (r: Vec2)
        ensures
            r@ == Vector::zero(),
    {
        Vec2 { x: 0, y: 0 }
    }

    /// Whether both components are zero.
    pub fn is_zero(self) -> (r: bool)
        ensures
            r == (self@ == Vector::zero()),
    {
        self.x == 0 && self.y == 0
    }

    /// Componentwise sum.
    pub fn plus(self, other: Vec2) -> (r: Vec2)
        requires
            self@.plus(other@).fits(),
        ensures
            r@ == self@.plus(other@),
    {
        Vec2 { x: self.x + other.x, y: self.y + other.y }
    }

    /// Componentwise difference.
    pub fn minus(self, other: Vec2) -> (r: Vec2)
        requires
            self@.minus(other@).fits(),
        ensures
            r@ == self@.minus(other@),
    {
        Vec2 { x: self.x - other.x, y: self.y - other.y }
    }

    /// The vector of the same length that points the opposite way.
    pub fn negated(self) -> (r: Vec2)
        requires
            self@.negated().fits(),
        ensures
            r@ == self@.negated(),
    {
        Vec2 { x: -self.x, y: -self.y }
    }

    /// The squared length.
    pub fn norm_sq(self) -> (r: u128)
        ensures
            r == self@.norm_sq(),
    {
        let ax: u128 = magnitude_of(self.x);
        let ay: u128 = magnitude_of(self.y);
        assert(ax * ax <= 0x4000_0000_0000_0000_0000_0000_0000_0000 && ax * ax == self.x * self.x)
            by (nonlinear_arith)
            requires
                ax == magnitude(self.x as int),
                ax <= 0x8000_0000_0000_0000,
        ;
        assert(ay * ay <= 0x4000_0000_0000_0000_0000_0000_0000_0000 && ay * ay == self.y * self.y)
            by (nonlinear_arith)
            requires
                ay == magnitude(self.y as int),
                ay <= 0x8000_0000_0000_0000,
        ;
        ax * ax + ay * ay
    }

    /// The scalar product.
    pub fn dot(self, other: Vec2) -> (r: i128)
        requires
            i128::MIN <= self@.dot(other@) <= i128::MAX,
        ensures
            r == self@.dot(other@),
    {
        proof {
            lemma_product_fits(self.x, other.x);
            lemma_product_fits(self.y, other.y);
        }
        (self.x as i128) * (other.x as i128) + (self.y as i128) * (other.y as i128)
    }

    /// The perpendicular dot product.
    pub fn cross(self, other: Vec2) -> (r: i128)
        requires
            i128::MIN <= self@.cross(other@) <= i128::MAX,
        ensures
            r == self@.cross(other@),
    {
        proof {
            lemma_product_fits(self.x, other.y);
            lemma_product_fits(self.y, other.x);
        }
        (self.x as i128) * (other.y as i128) - (self.y as i128) * (other.x as i128)
    }

    /// The fixed-point product with a scalar.
    pub fn scaled(self, factor: i64) -> (r: Vec2)
        requires
            self@.scaled(factor as int).fits(),
        ensures
            r@ == self@.scaled(factor as int),
    {
        Vec2 { x: mul_div(self.x, factor, ONE as i128), y: mul_div(self.y, factor, ONE as i128) }
    }

    /// The vector along `self` of length `target`, rounded toward zero.
    pub fn shrunk_to(self, target: i64) -> (r: Vec2)
        requires
            target >= 0,
        ensures
            r@ == self@.shrunk_to(target as int),
    {
        let n: u128 = self.norm_sq();
        if n == 0 {
            return Vec2 { x: 0, y: 0 };
        }
        let len: u128 = isqrt_up(n);
        proof {
            lemma_shrunk_to(self@, target as int);
            lemma_lengths(self@);
        }
        Vec2 { x: mul_div(self.x, target, len as i128), y: mul_div(self.y, target, len as i128) }
    }

    /// The vector along `self` of length `target`, rounded away from zero.
    pub fn stretched_to(self, target: i64) -> (r: Vec2)
        requires
            target >= 0,
        ensures
            r@ == self@.stretched_to(target as int),
    {
        let n: u128 = self.norm_sq();
        if n == 0 {
            return Vec2 { x: 0, y: 0 };
        }
        let len: u64 = isqrt(n);
        proof {
            lemma_stretched_to(self@, target as int);
            lemma_lengths(self@);
        }
        Vec2 {
            x: mul_div_away(self.x, target, len as i128),
            y: mul_div_away(self.y, target, len as i128),
        }
    }

    /// The unit vector along `self`, or the zero vector when `self` is zero.
    pub fn normalised(self) -> (r: Vec2)
        ensures
            r@ == self@.normalised(),
            self@ == Vector::zero() ==> r@ == Vector::zero(),
    {
        proof {
            lemma_norm_sq_zero(self@);
        }
        self.shrunk_to(ONE)
    }
}

} // verus!
