//! Fixed-point scalars: signed 64-bit integers counted in millionths.
use vstd::prelude::*;

verus! {

/// The scalar that stands for the number one.
pub const ONE: i64 = 1_000_000;

/// The distance of an integer from zero.
pub open spec fn magnitude(a: int) -> int {
    if a >= 0 {
        a
    } else {
        -a
    }
}

/// The quotient of `a` by a positive `b`, rounded toward zero.
pub open spec fn div_toward_zero(a: int, b: int) -> int {
    if a >= 0 {
        a / b
    } else {
        -((-a) / b)
    }
}

/// The quotient of `a` by a positive `b`, rounded away from zero.
pub open spec fn div_away_from_zero(a: int, b: int) -> int {
    if a >= 0 {
        (a + b - 1) / b
    } else {
        -((-a + b - 1) / b)
    }
}

/// The fixed-point product of two scalars, rounded toward zero.
pub open spec fn fx_mul(a: int, b: int) -> int {
    div_toward_zero(a * b, ONE as int)
}

/// `r` is the integer square root of `n`, rounded down.
pub open spec fn is_floor_sqrt(n: int, r: int) -> bool {
    0 <= r && r * r <= n < (r + 1) * (r + 1)
}

/// The integer square root of `n`, rounded down.
pub open spec fn floor_sqrt(n: int) -> int {
    choose|r: int| is_floor_sqrt(n, r)
}

/// The integer square root of `n`, rounded up.
pub open spec fn ceil_sqrt(n: int) -> int {
    let r = floor_sqrt(n);
    if r * r == n {
        r
    } else {
        r + 1
    }
}

/// Squaring is strictly monotonic on the non-negative integers.
pub proof fn lemma_square_monotonic(a: int, b: int)
    by (nonlinear_arith)
    requires
        0 <= a < b,
    ensures
        a * a < b * b,
{
}

/// Squaring is monotonic on the non-negative integers.
pub proof fn lemma_square_ordered(a: int, b: int)
    by (nonlinear_arith)
    requires
        0 <= a <= b,
    ensures
        a * a <= b * b,
{
}

/// Of two non-negative integers, the one with the smaller square is smaller.
pub proof fn lemma_square_reflects_order(a: int, b: int)
    by (nonlinear_arith)
    requires
        0 <= a,
        0 <= b,
        a * a < b * b,
    ensures
        a < b,
{
}

/// The square of a product is the product of the squares.
pub proof fn lemma_square_of_product(a: int, b: int)
    by (nonlinear_arith)
    ensures
        (a * b) * (a * b) == (a * a) * (b * b),
{
}

/// A common positive factor can be cancelled from both sides of an inequality.
pub proof fn lemma_cancel_factor(p: int, q: int, f: int)
    by (nonlinear_arith)
    requires
        f > 0,
        p * f <= q * f,
    ensures
        p <= q,
{
}

/// At most one integer is the rounded-down square root of `n`.
pub proof fn lemma_floor_sqrt_unique(n: int, r1: int, r2: int)
    requires
        is_floor_sqrt(n, r1),
        is_floor_sqrt(n, r2),
    ensures
        r1 == r2,
{
    if r1 < r2 {
        lemma_square_monotonic(r1, r2);
        assert((r1 + 1) * (r1 + 1) <= r2 * r2) by (nonlinear_arith)
            requires
                0 <= r1 + 1 <= r2,
        ;
    } else if r2 < r1 {
        assert((r2 + 1) * (r2 + 1) <= r1 * r1) by (nonlinear_arith)
            requires
                0 <= r2 + 1 <= r1,
        ;
    }
}

/// Every non-negative integer has a rounded-down square root.
pub proof fn lemma_floor_sqrt_exists(n: int)
    requires
        0 <= n,
    ensures
        is_floor_sqrt(n, floor_sqrt(n)),
    decreases n,
{
    if n == 0 {
        assert(is_floor_sqrt(0, 0));
    } else {
        lemma_floor_sqrt_exists(n - 1);
        let r = floor_sqrt(n - 1);
        if (r + 1) * (r + 1) <= n {
            assert((r + 2) * (r + 2) > (r + 1) * (r + 1)) by (nonlinear_arith)
                requires
                    0 <= r,
            ;
            assert(is_floor_sqrt(n, r + 1));
        } else {
            assert(is_floor_sqrt(n, r));
        }
    }
}

/// The rounded-down square root is the one integer that meets its definition.
pub proof fn lemma_floor_sqrt_is(n: int, r: int)
    requires
        is_floor_sqrt(n, r),
    ensures
        floor_sqrt(n) == r,
{
    assert(0 <= n) by (nonlinear_arith)
        requires
            r * r <= n,
    ;
    lemma_floor_sqrt_exists(n);
    lemma_floor_sqrt_unique(n, r, floor_sqrt(n));
}

/// The rounded-up square root `c` of a non-negative `n` is the least integer
/// whose square reaches `n`.
pub proof fn lemma_ceil_sqrt(n: int)
    requires
        0 <= n,
    ensures
        0 <= ceil_sqrt(n),
        n <= ceil_sqrt(n) * ceil_sqrt(n),
        n > 0 ==> ceil_sqrt(n) >= 1 && (ceil_sqrt(n) - 1) * (ceil_sqrt(n) - 1) < n,
        n == 0 ==> ceil_sqrt(n) == 0,
        floor_sqrt(n) <= ceil_sqrt(n) <= floor_sqrt(n) + 1,
{
    lemma_floor_sqrt_exists(n);
    let r = floor_sqrt(n);
    if n == 0 {
        lemma_floor_sqrt_is(0, 0);
    }
    if r * r != n {
        assert((r + 1) - 1 == r);
    } else if n > 0 {
        assert(r != 0) by (nonlinear_arith)
            requires
                r * r == n,
                n > 0,
        ;
        lemma_square_monotonic(r - 1, r);
    }
}

/// Rounding a quotient of non-negative integers up adds one to the
/// rounded-down quotient exactly when the division leaves a remainder.
pub proof fn lemma_div_rounded_up(a: int, b: int)
    requires
        0 <= a,
        0 < b,
    ensures
        (a + b - 1) / b == if a % b == 0 {
            a / b
        } else {
            a / b + 1
        },
{
    let q = a / b;
    let r = a % b;
    vstd::arithmetic::div_mod::lemma_fundamental_div_mod(a, b);
    if r == 0 {
        assert(a + b - 1 == q * b + (b - 1)) by (nonlinear_arith)
            requires
                a == b * q + r,
                r == 0,
        ;
        vstd::arithmetic::div_mod::lemma_fundamental_div_mod_converse_div(a + b - 1, b, q, b - 1);
    } else {
        assert(a + b - 1 == (q + 1) * b + (r - 1)) by (nonlinear_arith)
            requires
                a == b * q + r,
        ;
        vstd::arithmetic::div_mod::lemma_fundamental_div_mod_converse_div(
            a + b - 1,
            b,
            q + 1,
            r - 1,
        );
    }
}

/// The product of two 64-bit integers fits in 128 bits.
pub proof fn lemma_product_fits(x: i64, y: i64)
    by (nonlinear_arith)
    ensures
        -0x4000_0000_0000_0000_0000_0000_0000_0000 <= x * y
            <= 0x4000_0000_0000_0000_0000_0000_0000_0000,
{
}

/// Rounding a quotient toward zero never moves it away from zero, and the
/// result keeps the sign of the dividend.
pub proof fn lemma_div_toward_zero_bounds(a: int, b: int)
    by (nonlinear_arith)
    requires
        b > 0,
    ensures
        magnitude(div_toward_zero(a, b)) * b <= magnitude(a),
        magnitude(a) < (magnitude(div_toward_zero(a, b)) + 1) * b,
        magnitude(div_toward_zero(a, b)) <= magnitude(a),
        a >= 0 ==> div_toward_zero(a, b) >= 0,
        a <= 0 ==> div_toward_zero(a, b) <= 0,
        magnitude(div_toward_zero(a, b)) == magnitude(a) / b,
{
    let m = magnitude(a);
    assert(m == b * (m / b) + m % b && 0 <= m % b < b) by {
        vstd::arithmetic::div_mod::lemma_fundamental_div_mod(m, b);
    }
    assert(0 <= m / b <= m) by {
        vstd::arithmetic::div_mod::lemma_div_pos_is_pos(m, b);
        vstd::arithmetic::div_mod::lemma_div_nonincreasing(m, b);
    }
}

/// Rounding a quotient away from zero never moves it toward zero, and
/// overshoots by less than one.
pub proof fn lemma_div_away_from_zero_bounds(a: int, b: int)
    by (nonlinear_arith)
    requires
        b > 0,
    ensures
        magnitude(div_away_from_zero(a, b)) * b >= magnitude(a),
        magnitude(div_away_from_zero(a, b)) * b < magnitude(a) + b,
        a >= 0 ==> div_away_from_zero(a, b) >= 0,
        a <= 0 ==> div_away_from_zero(a, b) <= 0,
        magnitude(div_away_from_zero(a, b)) == (magnitude(a) + b - 1) / b,
{
    let m = magnitude(a) + b - 1;
    assert(m == b * (m / b) + m % b && 0 <= m % b < b) by {
        vstd::arithmetic::div_mod::lemma_fundamental_div_mod(m, b);
    }
    assert(0 <= m / b) by {
        vstd::arithmetic::div_mod::lemma_div_pos_is_pos(m, b);
    }
}

/// A fixed-point product is no larger than the product of bounds on its
/// factors, and has the sign of the exact product.
pub proof fn lemma_fx_mul_bound(a: int, b: int, bound_a: int, bound_b: int)
    requires
        magnitude(a) <= bound_a,
        magnitude(b) <= bound_b,
    ensures
        magnitude(fx_mul(a, b)) <= (bound_a * bound_b) / (ONE as int),
        magnitude(fx_mul(a, b)) * ONE <= bound_a * bound_b,
{
    lemma_div_toward_zero_bounds(a * b, ONE as int);
    assert(magnitude(a * b) <= bound_a * bound_b) by (nonlinear_arith)
        requires
            magnitude(a) <= bound_a,
            magnitude(b) <= bound_b,
    ;
    vstd::arithmetic::div_mod::lemma_div_is_ordered(
        magnitude(a * b),
        bound_a * bound_b,
        ONE as int,
    );
}

/// The fixed-point product with a whole number is the ordinary product.
pub proof fn lemma_fx_mul_whole(a: int, k: int)
    ensures
        fx_mul(a, k * ONE) == a * k,
{
    assert(a * (k * ONE) == (a * k) * ONE) by (nonlinear_arith);
    if a * k >= 0 {
        assert((a * k) * ONE >= 0) by (nonlinear_arith)
            requires
                a * k >= 0,
        ;
        vstd::arithmetic::div_mod::lemma_div_multiples_vanish(a * k, ONE as int);
    } else {
        assert(-((a * k) * ONE) == (-(a * k)) * ONE && (a * k) * ONE < 0) by (nonlinear_arith)
            requires
                a * k < 0,
        ;
        vstd::arithmetic::div_mod::lemma_div_multiples_vanish(-(a * k), ONE as int);
    }
}

/// The integer square root of `n`, rounded down.
pub fn isqrt(n: u128) -> (r: u64)
    ensures
        is_floor_sqrt(n as int, r as int),
        r == floor_sqrt(n as int),
{
    let mut lo: u128 = 0;
    let mut hi: u128 = 0x1_0000_0000_0000_0000;
    assert(hi * hi > n) by (nonlinear_arith)
        requires
            hi == 0x1_0000_0000_0000_0000,
            n <= u128::MAX,
    ;
    while hi - lo > 1
        invariant
            lo < hi <= 0x1_0000_0000_0000_0000,
            lo * lo <= n < hi * hi,
        decreases hi - lo,
    {
        let mid: u128 = lo + (hi - lo) / 2;
        assert(mid * mid < 0x1_0000_0000_0000_0000 * 0x1_0000_0000_0000_0000) by (nonlinear_arith)
            requires
                0 <= mid < 0x1_0000_0000_0000_0000,
        ;
        if mid * mid <= n {
            lo = mid;
        } else {
            hi = mid;
        }
    }
    proof {
        assert(hi == lo + 1);
        lemma_floor_sqrt_is(n as int, lo as int);
    }
    lo as u64
}

/// The integer square root of `n`, rounded up.
pub fn isqrt_up(n: u128) -> (r: u128)
    ensures
        r == ceil_sqrt(n as int),
        r <= 0x1_0000_0000_0000_0000,
{
    let root: u64 = isqrt(n);
    let wide: u128 = root as u128;
    assert(wide * wide <= n);
    if wide * wide == n {
        wide
    } else {
        wide + 1
    }
}

/// `x * num / den`, rounded toward zero, with the product taken in 128 bits.
pub fn mul_div(x: i64, num: i64, den: i128) -> (r: i64)
    requires
        den > 0,
        i64::MIN <= div_toward_zero(x * num, den as int) <= i64::MAX,
    ensures
        r == div_toward_zero(x * num, den as int),
{
    proof {
        lemma_product_fits(x, num);
    }
    let product: i128 = (x as i128) * (num as i128);
    let quotient: i128 = product / den;
    quotient as i64
}

/// `x * num / den`, rounded away from zero, with the product taken in 128 bits.
pub fn mul_div_away(x: i64, num: i64, den: i128) -> (r: i64)
    requires
        den > 0,
        i64::MIN <= div_away_from_zero(x * num, den as int) <= i64::MAX,
    ensures
        r == div_away_from_zero(x * num, den as int),
{
    proof {
        lemma_product_fits(x, num);
        lemma_div_rounded_up(magnitude(x * num), den as int);
    }
    let product: i128 = (x as i128) * (num as i128);
    if product >= 0 {
        let quotient: i128 = product / den;
        if product % den == 0 {
            quotient as i64
        } else {
            (quotient + 1) as i64
        }
    } else {
        let positive: i128 = -product;
        let quotient: i128 = positive / den;
        if positive % den == 0 {
            (-quotient) as i64
        } else {
            (-quotient - 1) as i64
        }
    }
}

/// The remainder of `a` by a positive `m` that is never negative.
pub fn modulo(a: i128, m: i128) -> (r: i128)
    requires
        m > 0,
        a > i128::MIN,
    ensures
        r == (a as int) % (m as int),
        0 <= r < m,
{
    if a >= 0 {
        a % m
    } else {
        let p: i128 = -a;
        let rest: i128 = p % m;
        proof {
            let q = (p as int) / (m as int);
            vstd::arithmetic::div_mod::lemma_fundamental_div_mod(p as int, m as int);
            if rest == 0 {
                assert(a as int == (-q) * m + 0) by (nonlinear_arith)
                    requires
                        p as int == m * q + rest,
                        rest == 0,
                        a as int == -(p as int),
                ;
                vstd::arithmetic::div_mod::lemma_fundamental_div_mod_converse_mod(
                    a as int,
                    m as int,
                    -q,
                    0,
                );
            } else {
                assert(a as int == (-q - 1) * m + (m - rest)) by (nonlinear_arith)
                    requires
                        p as int == m * q + rest,
                        a as int == -(p as int),
                ;
                vstd::arithmetic::div_mod::lemma_fundamental_div_mod_converse_mod(
                    a as int,
                    m as int,
                    -q - 1,
                    m - rest,
                );
            }
        }
        if rest == 0 {
            0
        } else {
            m - rest
        }
    }
}

} // verus!
