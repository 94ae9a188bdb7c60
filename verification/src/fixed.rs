//! The number format of the signal path.
//!
//! Every sample, gain and parameter value is a signed 64-bit integer that
//! counts billionths: the integer `ONE` stands for 1.0. Sums and products are
//! formed exactly in 128 bits, rounded toward zero to the next billionth, and
//! saturated at `LIMIT`, so no operation of this module can overflow, and an
//! operation on `-x` gives the negative of what it gives on `x`.

use vstd::arithmetic::div_mod::lemma_div_is_ordered;
use vstd::prelude::*;

verus! {

/// The integer that stands for 1.0.
pub const ONE: i64 = 1_000_000_000;

/// The largest magnitude that a value can have; arithmetic saturates here.
pub const LIMIT: i64 = 9_223_372_036_854_775_807;

/// `v` limited to the range from `lo` to `hi`.
pub open spec fn clamp_spec(v: int, lo: int, hi: int) -> int {
    if v < lo {
        lo
    } else if v > hi {
        hi
    } else {
        v
    }
}

/// The magnitude of `v`.
pub open spec fn abs_spec(v: int) -> int {
    if v < 0 {
        -v
    } else {
        v
    }
}

/// The quotient of `a` by a positive `b`, rounded toward zero.
pub open spec fn div_trunc(a: int, b: int) -> int {
    if a >= 0 {
        a / b
    } else {
        -((-a) / b)
    }
}

/// `v` limited to the magnitudes that the format can hold.
pub open spec fn saturate(v: int) -> int {
    clamp_spec(v, -(LIMIT as int), LIMIT as int)
}

/// The exact product `a * b` divided by `d`, rounded toward zero and
/// saturated.
pub open spec fn mul_div_spec(a: int, b: int, d: int) -> int {
    saturate(div_trunc(a * b, d))
}

/// The product of two values of the format.
pub open spec fn multiply_spec(a: int, b: int) -> int {
    mul_div_spec(a, b, ONE as int)
}

/// `r` is the integer square root of `n`, rounded down.
pub open spec fn is_sqrt(n: int, r: int) -> bool {
    0 <= r && r * r <= n < (r + 1) * (r + 1)
}

/// The integer square root of `n`, rounded down.
pub open spec fn sqrt_spec(n: int) -> int {
    choose|r: int| is_sqrt(n, r)
}

/// `base` raised to the power `n` in the arithmetic of the format. With a
/// rounding after every multiplication the order of the multiplications
/// matters; it is fixed here as squaring for an even exponent and one more
/// factor for an odd one.
pub open spec fn pow_spec(base: int, n: nat) -> int
    decreases n,
{
    if n == 0 {
        ONE as int
    } else if n % 2 == 0 {
        multiply_spec(pow_spec(base, n / 2), pow_spec(base, n / 2))
    } else {
        multiply_spec(pow_spec(base, (n - 1) as nat), base)
    }
}

/// `r` is the largest value of the format whose `n`-th power does not exceed
/// `a`.
pub open spec fn is_root(a: int, n: nat, r: int) -> bool {
    &&& 0 <= r <= LIMIT
    &&& pow_spec(r, n) <= a
    &&& (r == LIMIT || pow_spec(r + 1, n) > a)
}

/// The `n`-th root of `a`, rounded down to the next billionth.
pub open spec fn root_spec(a: int, n: nat) -> int {
    choose|r: int| is_root(a, n, r)
}

/// Rounding toward zero commutes with negation.
pub proof fn lemma_div_trunc_odd(a: int, b: int)
    requires
        b > 0,
    ensures
        div_trunc(-a, b) == -div_trunc(a, b),
{
}

/// Rounding toward zero keeps the order of the dividends.
pub proof fn lemma_div_trunc_ordered(a1: int, a2: int, b: int)
    requires
        a1 <= a2,
        b > 0,
    ensures
        div_trunc(a1, b) <= div_trunc(a2, b),
{
    if a1 >= 0 {
        lemma_div_is_ordered(a1, a2, b);
    } else if a2 < 0 {
        lemma_div_is_ordered(-a2, -a1, b);
    } else {
        lemma_div_is_ordered(0, -a1, b);
        lemma_div_is_ordered(0, a2, b);
    }
}

/// A dividend within `m` times the divisor on either side of zero gives a
/// quotient within `m`.
pub proof fn lemma_div_trunc_within(a: int, b: int, m: int)
    requires
        b > 0,
        m >= 0,
        -(m * b) <= a <= m * b,
    ensures
        -m <= div_trunc(a, b) <= m,
{
    assert(m * b == b * m) by (nonlinear_arith);
    vstd::arithmetic::div_mod::lemma_div_multiples_vanish(m, b);
    lemma_div_trunc_ordered(a, m * b, b);
    lemma_div_trunc_ordered(-(m * b), a, b);
}

/// A dividend of at least `m` times the divisor gives a quotient of at
/// least `m`.
pub proof fn lemma_div_trunc_at_least(a: int, b: int, m: int)
    requires
        b > 0,
        m >= 0,
        a >= m * b,
    ensures
        div_trunc(a, b) >= m,
{
    assert(m * b == b * m) by (nonlinear_arith);
    assert(m * b >= 0) by (nonlinear_arith)
        requires
            m >= 0,
            b > 0,
    ;
    vstd::arithmetic::div_mod::lemma_div_multiples_vanish(m, b);
    lemma_div_trunc_ordered(m * b, a, b);
}

/// Multiplication commutes with negation of one factor.
pub proof fn lemma_mul_odd(a: int, b: int)
    ensures
        multiply_spec(-a, b) == -multiply_spec(a, b),
        multiply_spec(a, -b) == -multiply_spec(a, b),
{
    assert((-a) * b == -(a * b)) by (nonlinear_arith);
    assert(a * (-b) == -(a * b)) by (nonlinear_arith);
}

/// Multiplication of values that are not negative keeps their order, and
/// its result is not negative.
pub proof fn lemma_mul_ordered(a1: int, b1: int, a2: int, b2: int)
    requires
        0 <= a1 <= a2,
        0 <= b1 <= b2,
    ensures
        0 <= multiply_spec(a1, b1) <= multiply_spec(a2, b2),
{
    assert(0 <= a1 * b1 <= a2 * b2) by (nonlinear_arith)
        requires
            0 <= a1 <= a2,
            0 <= b1 <= b2,
    ;
    lemma_div_is_ordered(0, a1 * b1, ONE as int);
    lemma_div_is_ordered(a1 * b1, a2 * b2, ONE as int);
}

/// Multiplying by 1.0 changes nothing, and multiplying by 0 gives 0.
pub proof fn lemma_mul_unit(a: int)
    requires
        -LIMIT <= a <= LIMIT,
    ensures
        multiply_spec(a, ONE as int) == a,
        multiply_spec(ONE as int, a) == a,
        multiply_spec(a, 0) == 0,
        multiply_spec(0, a) == 0,
{
    assert(a * 0 == 0) by (nonlinear_arith);
    assert(0 * a == 0) by (nonlinear_arith);
    assert((ONE as int) * a == a * (ONE as int)) by (nonlinear_arith);
    if a >= 0 {
        vstd::arithmetic::div_mod::lemma_div_multiples_vanish(a, ONE as int);
    } else {
        assert(-(a * (ONE as int)) == (ONE as int) * (-a)) by (nonlinear_arith);
        vstd::arithmetic::div_mod::lemma_div_multiples_vanish(-a, ONE as int);
    }
}

/// The integer square root is unique.
pub proof fn lemma_sqrt_unique(n: int, r1: int, r2: int)
    requires
        is_sqrt(n, r1),
        is_sqrt(n, r2),
    ensures
        r1 == r2,
{
    if r1 < r2 {
        assert((r1 + 1) * (r1 + 1) <= r2 * r2) by (nonlinear_arith)
            requires
                0 <= r1 + 1 <= r2,
        ;
    } else if r2 < r1 {
        assert((r2 + 1) * (r2 + 1) <= r1 * r1) by (nonlinear_arith)
            requires
                0 <= r2 + 1 <= r1,
        ;
    }
}

/// Every number that is not negative has an integer square root.
pub proof fn lemma_sqrt_exists(n: nat)
    ensures
        is_sqrt(n as int, sqrt_spec(n as int)),
    decreases n,
{
    if n == 0 {
        assert(is_sqrt(0, 0));
    } else {
        lemma_sqrt_exists((n - 1) as nat);
        let r = sqrt_spec(n - 1);
        assert((r + 2) * (r + 2) > (r + 1) * (r + 1)) by (nonlinear_arith)
            requires
                r >= 0,
        ;
        if (r + 1) * (r + 1) <= n {
            assert(is_sqrt(n as int, r + 1));
        } else {
            assert(is_sqrt(n as int, r));
        }
    }
}

/// A power keeps the order of bases that are not negative, and is not
/// negative itself.
pub proof fn lemma_pow_ordered(b1: int, b2: int, n: nat)
    requires
        0 <= b1 <= b2,
    ensures
        0 <= pow_spec(b1, n) <= pow_spec(b2, n),
    decreases n,
{
    if n == 0 {
    } else if n % 2 == 0 {
        lemma_pow_ordered(b1, b2, n / 2);
        lemma_mul_ordered(
            pow_spec(b1, n / 2),
            pow_spec(b1, n / 2),
            pow_spec(b2, n / 2),
            pow_spec(b2, n / 2),
        );
    } else {
        lemma_pow_ordered(b1, b2, (n - 1) as nat);
        lemma_mul_ordered(pow_spec(b1, (n - 1) as nat), b1, pow_spec(b2, (n - 1) as nat), b2);
    }
}

/// The root is unique: two values that both are the largest with a power
/// up to `a` are equal.
pub proof fn lemma_root_unique(a: int, n: nat, r1: int, r2: int)
    requires
        is_root(a, n, r1),
        is_root(a, n, r2),
    ensures
        r1 == r2,
{
    if r1 < r2 {
        lemma_pow_ordered(r1 + 1, r2, n);
    } else if r2 < r1 {
        lemma_pow_ordered(r2 + 1, r1, n);
    }
}

/// Every power of 1.0 is 1.0, and every power of 0 but the zeroth is 0.
pub proof fn lemma_pow_fixed_points(n: nat)
    ensures
        pow_spec(ONE as int, n) == ONE,
        n > 0 ==> pow_spec(0, n) == 0,
    decreases n,
{
    lemma_mul_unit(ONE as int);
    lemma_mul_unit(0);
    if n == 0 {
    } else if n % 2 == 0 {
        lemma_pow_fixed_points(n / 2);
    } else {
        lemma_pow_fixed_points((n - 1) as nat);
        lemma_mul_unit(pow_spec(0, (n - 1) as nat));
        lemma_pow_ordered(0, 0, (n - 1) as nat);
        lemma_pow_bounded(0, (n - 1) as nat);
    }
}

/// Powers of a base from 0 to 1.0 shrink: every power from the first on is
/// at most the base, every power from the second on at most the square,
/// and every power from the third on at most the cube.
pub proof fn lemma_pow_shrinks(base: int, n: nat)
    requires
        0 <= base <= ONE,
    ensures
        0 <= pow_spec(base, n) <= ONE,
        n >= 1 ==> pow_spec(base, n) <= base,
        n >= 2 ==> pow_spec(base, n) <= pow_spec(base, 2),
        n >= 3 ==> pow_spec(base, n) <= pow_spec(base, 3),
    decreases n,
{
    reveal_with_fuel(pow_spec, 4);
    let square = pow_spec(base, 2);
    let cube = pow_spec(base, 3);
    lemma_mul_unit(base);
    lemma_mul_ordered(base, base, base, ONE as int);
    lemma_mul_ordered(0, 0, base, base);
    lemma_mul_unit(square);
    lemma_mul_ordered(square, base, square, ONE as int);
    lemma_mul_ordered(0, 0, square, base);
    lemma_mul_unit(cube);
    assert(pow_spec(base, 1) == base);
    assert(0 <= cube <= square <= base);
    if n >= 4 {
        if n % 2 == 0 {
            let half = pow_spec(base, n / 2);
            lemma_pow_shrinks(base, n / 2);
            lemma_mul_ordered(half, half, square, base);
            lemma_mul_ordered(0, 0, half, half);
        } else {
            let rest = pow_spec(base, (n - 1) as nat);
            lemma_pow_shrinks(base, (n - 1) as nat);
            lemma_mul_ordered(rest, base, cube, ONE as int);
            lemma_mul_ordered(0, 0, rest, base);
        }
    }
}

/// Below a value whose successor has too large a power, there is a largest
/// value with a power up to `a`.
proof fn lemma_root_search(a: int, n: nat, top: int)
    requires
        0 <= top <= LIMIT,
        pow_spec(0, n) <= a,
        top == LIMIT || pow_spec(top + 1, n) > a,
    ensures
        exists|r: int| is_root(a, n, r),
    decreases top,
{
    if pow_spec(top, n) <= a {
        assert(is_root(a, n, top));
    } else {
        lemma_root_search(a, n, top - 1);
    }
}

/// Every value that is not negative has a root of every degree from 1 on.
pub proof fn lemma_root_exists(a: int, n: nat)
    requires
        a >= 0,
        n >= 1,
    ensures
        is_root(a, n, root_spec(a, n)),
{
    lemma_pow_fixed_points(n);
    lemma_root_search(a, n, LIMIT as int);
}

/// A root is at least every value whose power does not exceed the
/// radicand.
pub proof fn lemma_root_at_least(a: int, n: nat, r: int, below: int)
    requires
        is_root(a, n, r),
        0 <= below <= LIMIT,
        pow_spec(below, n) <= a,
    ensures
        below <= r,
{
    if r < below {
        lemma_pow_ordered(r + 1, below, n);
    }
}

/// A root is below every value whose power exceeds the radicand.
pub proof fn lemma_root_below(a: int, n: nat, r: int, above: int)
    requires
        is_root(a, n, r),
        0 <= above,
        pow_spec(above, n) > a,
    ensures
        r < above,
{
    if r >= above {
        lemma_pow_ordered(above, r, n);
    }
}

/// A power lies within the format.
pub proof fn lemma_pow_bounded(base: int, n: nat)
    ensures
        -LIMIT <= pow_spec(base, n) <= LIMIT,
    decreases n,
{
}

/// `v` limited to the range from `lo` to `hi`.
pub fn clamp(v: i64, lo: i64, hi: i64) -> (r: i64)
    ensures
        r == clamp_spec(v as int, lo as int, hi as int),
{
    if v < lo {
        lo
    } else if v > hi {
        hi
    } else {
        v
    }
}

/// The magnitude of `v`.
pub fn magnitude(v: i64) -> (r: u64)
    ensures
        r == abs_spec(v as int),
{
    if v < 0 {
        let wide: i128 = -(v as i128);
        wide as u64
    } else {
        v as u64
    }
}

/// A 128-bit value saturated to the format.
pub fn saturate_wide(v: i128) -> (r: i64)
    ensures
        r == saturate(v as int),
{
    if v > LIMIT as i128 {
        LIMIT
    } else if v < -(LIMIT as i128) {
        -LIMIT
    } else {
        v as i64
    }
}

/// The remainder of `x` by a positive `m`, from 0 up to `m`.
pub fn modulo(x: i64, m: i64) -> (r: i64)
    requires
        m > 0,
    ensures
        r == (x as int) % (m as int),
        0 <= r < m,
{
    let rest: i64 = x % m;
    let r: i64 = if rest < 0 {
        rest + m
    } else {
        rest
    };
    proof {
        if x >= 0 {
            vstd::arithmetic::div_mod::lemma_mod_bound(x as int, m as int);
        } else {
            let k = (-x) / (m as int);
            let e = (-x) % (m as int);
            vstd::arithmetic::div_mod::lemma_mod_bound(-x, m as int);
            vstd::arithmetic::div_mod::lemma_fundamental_div_mod(-x, m as int);
            assert(rest == -e);
            if e == 0 {
                assert(x == (-k) * m + 0) by (nonlinear_arith)
                    requires
                        -x == m * k + 0,
                ;
                vstd::arithmetic::div_mod::lemma_fundamental_div_mod_converse(
                    x as int,
                    m as int,
                    -k,
                    0,
                );
            } else {
                assert(x == (-k - 1) * m + (m - e)) by (nonlinear_arith)
                    requires
                        -x == m * k + e,
                ;
                vstd::arithmetic::div_mod::lemma_fundamental_div_mod_converse(
                    x as int,
                    m as int,
                    -k - 1,
                    m - e,
                );
            }
        }
    }
    r
}

/// The exact product `a * b` divided by `d`, rounded toward zero and
/// saturated.
pub fn mul_div(a: i64, b: i64, d: i64) -> (r: i64)
    requires
        d > 0,
    ensures
        r == mul_div_spec(a as int, b as int, d as int),
{
    assert(-0x4000_0000_0000_0000_0000_0000_0000_0000 <= a * b
        <= 0x4000_0000_0000_0000_0000_0000_0000_0000) by (nonlinear_arith)
        requires
            -0x8000_0000_0000_0000 <= a <= 0x8000_0000_0000_0000,
            -0x8000_0000_0000_0000 <= b <= 0x8000_0000_0000_0000,
    ;
    let product: i128 = (a as i128) * (b as i128);
    saturate_wide(product / (d as i128))
}

/// The product of two values of the format.
pub fn multiply(a: i64, b: i64) -> (r: i64)
    ensures
        r == multiply_spec(a as int, b as int),
{
    mul_div(a, b, ONE)
}

/// The integer square root of `n`, rounded down.
pub fn isqrt(n: u64) -> (r: u64)
    ensures
        is_sqrt(n as int, r as int),
        r == sqrt_spec(n as int),
{
    let mut lo: u64 = 0;
    let mut hi: u64 = 0x1_0000_0000;
    assert(0x1_0000_0000 * 0x1_0000_0000 > n) by (nonlinear_arith)
        requires
            n < 0x1_0000_0000_0000_0000,
    ;
    while hi - lo > 1
        invariant
            lo < hi <= 0x1_0000_0000,
            lo * lo <= n < hi * hi,
        decreases hi - lo,
    {
        let mid: u64 = lo + (hi - lo) / 2;
        assert(mid * mid < 0x1_0000_0000_0000_0000) by (nonlinear_arith)
            requires
                0 <= mid < 0x1_0000_0000,
        ;
        if mid * mid <= n {
            lo = mid;
        } else {
            hi = mid;
        }
    }
    proof {
        assert(hi == lo + 1);
        lemma_sqrt_unique(n as int, lo as int, sqrt_spec(n as int));
    }
    lo
}

/// `base` raised to the power `n`.
pub fn pow(base: i64, n: u64) -> (r: i64)
    ensures
        r == pow_spec(base as int, n as nat),
    decreases n,
{
    if n == 0 {
        ONE
    } else if n % 2 == 0 {
        let half: i64 = pow(base, n / 2);
        multiply(half, half)
    } else {
        let rest: i64 = pow(base, n - 1);
        multiply(rest, base)
    }
}

/// The `n`-th root of a value `a` that is not negative, for `n` of at
/// least 1: the largest value whose `n`-th power does not exceed `a`.
pub fn root(a: i64, n: u64) -> (r: i64)
    requires
        a >= 0,
        n >= 1,
    ensures
        is_root(a as int, n as nat, r as int),
        r == root_spec(a as int, n as nat),
{
    let mut lo: i64 = 0;
    let mut hi: i64 = LIMIT;
    proof {
        lemma_pow_fixed_points(n as nat);
    }
    while lo < hi
        invariant
            0 <= lo <= hi <= LIMIT,
            pow_spec(lo as int, n as nat) <= a,
            hi == LIMIT || pow_spec(hi + 1, n as nat) > a,
        decreases hi - lo,
    {
        let mid: i64 = lo + (hi - lo) / 2 + 1;
        if pow(mid, n) <= a {
            lo = mid;
        } else {
            hi = mid - 1;
        }
    }
    proof {
        lemma_root_unique(a as int, n as nat, lo as int, root_spec(a as int, n as nat));
    }
    lo
}

} // verus!
