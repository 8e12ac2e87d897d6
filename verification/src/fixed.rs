//! Fixed-point scalar arithmetic.
//!
//! Every scalar of the renderer is a Q47.16 fixed-point number: an `i64`
//! holding the real value scaled by `ONE`.  Division follows the Euclidean
//! convention of specification arithmetic for positive divisors and is
//! extended to negative divisors by `div_q`, so that every executable
//! operation has an exact integer specification.

use vstd::prelude::*;
use vstd::arithmetic::div_mod::lemma_fundamental_div_mod;
use vstd::arithmetic::div_mod::lemma_fundamental_div_mod_converse;
use vstd::arithmetic::div_mod::lemma_mod_bound;

verus! {

/// One whole unit: all scalars are scaled by this factor.
pub const ONE: i64 = 65536;

/// One half unit.
pub const HALF: i64 = 32768;

/// The circle constant scaled by `ONE`.
pub const PI_FP: i64 = 205887;

/// The natural logarithm of two scaled by `ONE`.
pub const LN2_FP: i64 = 45426;

/// 180 degrees scaled by `ONE`.
pub const DEG180: i64 = 11796480;

/// 90 degrees scaled by `ONE`.
pub const DEG90: i64 = 5898240;

/// 360 degrees scaled by `ONE`.
pub const DEG360: i64 = 23592960;

/// Denominator constant of the rational sine approximation: 40500 * ONE * ONE.
pub const SIN_DENOM: i64 = 173946175488000;

/// Largest coordinate magnitude a scene is expected to use.
pub const COORD_LIMIT: i64 = 0x40_0000_0000;

/// Largest finite parametric ray distance; stands in for infinity.
pub const T_LIMIT: i64 = 0x1000_0000_0000;

/// Quotient that rounds toward negative infinity for positive divisors and
/// toward positive infinity for negative ones; this is exactly what the
/// Euclidean `/` of specification arithmetic computes, extended to negative
/// divisors through negation.
pub open spec fn div_q(n: int, d: int) -> int {
    if d >= 0 {
        n / d
    } else {
        -(n / (-d))
    }
}

/// Fixed-point product of two scalars: the real product rescaled by `ONE`.
pub open spec fn mul_q(a: int, b: int) -> int {
    (a * b) / (ONE as int)
}

/// Fixed-point quotient of two scalars: the real quotient rescaled by `ONE`.
pub open spec fn quot_q(a: int, b: int) -> int {
    div_q(a * ONE, b)
}

/// Euclidean quotient by a positive divisor, on machine integers.
fn div_pos_i128(n: i128, d: i128) -> (q: i128)
    requires
        0 < d,
        -0x4000_0000_0000_0000_0000_0000_0000_0000 <= n,
        n <= 0x4000_0000_0000_0000_0000_0000_0000_0000,
    ensures
        q == n as int / d as int,
        n >= 0 ==> 0 <= q <= n,
        n < 0 ==> n <= q <= 0,
{
    if n >= 0 {
        let nn = n as u128;
        let dd = d as u128;
        let q0 = nn / dd;
        let r0 = nn % dd;
        proof {
            lemma_fundamental_div_mod(nn as int, dd as int);
            lemma_mod_bound(nn as int, dd as int);
            assert(nn as int == (q0 as int) * (d as int) + r0 as int) by (nonlinear_arith)
                requires
                    nn as int == (dd as int) * ((nn as int) / (dd as int)) + (nn as int) % (
                    dd as int),
                    q0 == nn as int / dd as int,
                    r0 == nn as int % dd as int,
                    dd == d,
            ;
            lemma_fundamental_div_mod_converse(n as int, d as int, q0 as int, r0 as int);
            assert((q0 as int) <= (nn as int)) by (nonlinear_arith)
                requires
                    nn as int == (q0 as int) * (d as int) + r0 as int,
                    0 <= (r0 as int),
                    1 <= (d as int),
                    0 <= (q0 as int),
            ;
        }
        q0 as i128
    } else {
        let nn = (-n) as u128;
        let dd = d as u128;
        let q0 = nn / dd;
        let r0 = nn % dd;
        proof {
            lemma_fundamental_div_mod(nn as int, dd as int);
            lemma_mod_bound(nn as int, dd as int);
            assert(nn as int == (q0 as int) * (d as int) + r0 as int) by (nonlinear_arith)
                requires
                    nn as int == (dd as int) * ((nn as int) / (dd as int)) + (nn as int) % (
                    dd as int),
                    q0 == nn as int / dd as int,
                    r0 == nn as int % dd as int,
                    dd == d,
            ;
            assert((q0 as int) <= (nn as int)) by (nonlinear_arith)
                requires
                    nn as int == (q0 as int) * (d as int) + r0 as int,
                    0 <= (r0 as int),
                    1 <= (d as int),
                    0 <= (q0 as int),
            ;
        }
        if r0 == 0 {
            proof {
                assert(n as int == (-(q0 as int)) * (d as int) + 0) by (nonlinear_arith)
                    requires
                        nn as int == (q0 as int) * (d as int) + r0 as int,
                        r0 == 0,
                        n as int == -(nn as int),
                ;
                lemma_fundamental_div_mod_converse(n as int, d as int, -(q0 as int), 0);
            }
            -(q0 as i128)
        } else {
            proof {
                assert(n as int == (-(q0 as int) - 1) * (d as int) + (d as int - r0 as int))
                    by (nonlinear_arith)
                    requires
                        nn as int == (q0 as int) * (d as int) + r0 as int,
                        n as int == -(nn as int),
                ;
                assert((q0 as int) < (nn as int)) by (nonlinear_arith)
                    requires
                        nn as int == (q0 as int) * (d as int) + r0 as int,
                        0 < (r0 as int),
                        1 <= (d as int),
                        0 <= (q0 as int),
                ;
                lemma_fundamental_div_mod_converse(
                    n as int,
                    d as int,
                    -(q0 as int) - 1,
                    d as int - r0 as int,
                );
            }
            -(q0 as i128) - 1
        }
    }
}

/// Quotient matching `div_q` on machine integers.
pub fn div_q_i128(n: i128, d: i128) -> (q: i128)
    requires
        d != 0,
        -0x4000_0000_0000_0000_0000_0000_0000_0000 <= n,
        n <= 0x4000_0000_0000_0000_0000_0000_0000_0000,
        -0x4000_0000_0000_0000_0000_0000_0000_0000 <= d,
        d <= 0x4000_0000_0000_0000_0000_0000_0000_0000,
    ensures
        q == div_q(n as int, d as int),
        n >= 0 && d > 0 ==> 0 <= q <= n,
        -n <= q <= n || n <= q <= -n,
{
    if d > 0 {
        div_pos_i128(n, d)
    } else {
        let q0 = div_pos_i128(n, -d);
        -q0
    }
}

/// Fixed-point multiplication.
pub fn fmul(a: i64, b: i64) -> (r: i64)
    requires
        i64::MIN <= mul_q(a as int, b as int) <= i64::MAX,
    ensures
        r == mul_q(a as int, b as int),
{
    let p: i128 = (a as i128) * (b as i128);
    let q = div_q_i128(p, ONE as i128);
    q as i64
}

/// Fixed-point division.
pub fn fdiv(a: i64, b: i64) -> (r: i64)
    requires
        b != 0,
        i64::MIN <= quot_q(a as int, b as int) <= i64::MAX,
    ensures
        r == quot_q(a as int, b as int),
{
    let p: i128 = (a as i128) * (ONE as i128);
    let q = div_q_i128(p, b as i128);
    q as i64
}

/// Floor of the square root, as a predicate.
pub open spec fn is_sqrt_floor(n: int, r: int) -> bool {
    0 <= r && r * r <= n && n < (r + 1) * (r + 1)
}

/// Floor of the square root of a non-negative integer.
pub open spec fn sqrt_floor(n: int) -> int {
    choose|r: int| is_sqrt_floor(n, r)
}

/// The square-root floor exists and is unique, so `sqrt_floor` is the one
/// witness of `is_sqrt_floor`.
pub proof fn lemma_sqrt_floor_unique(n: int, r: int)
    requires
        is_sqrt_floor(n, r),
    ensures
        sqrt_floor(n) == r,
{
    assert(is_sqrt_floor(n, sqrt_floor(n)));
    let s = sqrt_floor(n);
    assert(s == r) by {
        if s < r {
            assert((s + 1) * (s + 1) <= r * r) by (nonlinear_arith)
                requires
                    0 <= s,
                    0 <= r,
                    s < r,
            ;
        }
        if r < s {
            assert((r + 1) * (r + 1) <= s * s) by (nonlinear_arith)
                requires
                    0 <= s,
                    0 <= r,
                    r < s,
            ;
        }
    }
}

/// Integer square root by bisection.
pub fn isqrt_u128(n: u128) -> (r: u128)
    ensures
        is_sqrt_floor(n as int, r as int),
        r == sqrt_floor(n as int),
{
    let mut lo: u128 = 0;
    let mut hi: u128 = 0x1_0000_0000_0000_0000;
    while hi - lo > 1
        invariant
            lo < hi,
            hi <= 0x1_0000_0000_0000_0000,
            (lo as int) * (lo as int) <= n as int,
            (n as int) < (hi as int) * (hi as int),
        decreases hi - lo,
    {
        let mid = lo + (hi - lo) / 2;
        assert(mid < hi);
        assert((mid as int) * (mid as int) < 0x1_0000_0000_0000_0000_0000_0000_0000_0000) by (nonlinear_arith)
            requires
                0 <= (mid as int) < 0x1_0000_0000_0000_0000,
        ;
        if mid * mid <= n {
            lo = mid;
        } else {
            hi = mid;
        }
    }
    proof {
        lemma_sqrt_floor_unique(n as int, lo as int);
    }
    lo
}


/// Rational approximation of the sine of an angle between 0 and 180
/// degrees, both the angle and the result scaled by `ONE`.
pub open spec fn sin_half_spec(x: int) -> int {
    (4 * ONE * x * (DEG180 - x)) / (SIN_DENOM - x * (DEG180 - x))
}

/// The sine of any angle in scaled degrees: the half-turn approximation,
/// extended by point symmetry and periodicity.
pub open spec fn sin_deg_spec(x: int) -> int {
    let m = x % (DEG360 as int);
    if m <= DEG180 {
        sin_half_spec(m)
    } else {
        -sin_half_spec(m - DEG180)
    }
}

/// The cosine, as the sine shifted by a quarter turn.
pub open spec fn cos_deg_spec(x: int) -> int {
    sin_deg_spec(x + DEG90)
}

/// The half-turn sine approximation stays within one unit.
pub proof fn lemma_sin_half_bounds(x: int)
    requires
        0 <= x <= DEG180,
    ensures
        0 <= sin_half_spec(x) <= ONE,
{
    let p = x * (DEG180 - x);
    assert(0 <= p && p <= 34789235097600) by (nonlinear_arith)
        requires
            0 <= x <= DEG180,
            p == x * (DEG180 - x),
    ;
    let num = 4 * ONE * x * (DEG180 - x);
    let den = SIN_DENOM - p;
    assert(num == 4 * (ONE as int) * p) by (nonlinear_arith)
        requires
            num == 4 * ONE * x * (DEG180 - x),
            p == x * (DEG180 - x),
    ;
    assert(0 < den);
    vstd::arithmetic::div_mod::lemma_div_pos_is_pos(num, den);
    assert(num <= (ONE as int) * den) by (nonlinear_arith)
        requires
            num == 4 * (ONE as int) * p,
            den == SIN_DENOM - p,
            0 <= p <= 34789235097600,
    ;
    vstd::arithmetic::div_mod::lemma_div_is_ordered(num, (ONE as int) * den, den);
    vstd::arithmetic::div_mod::lemma_div_multiples_vanish(ONE as int, den);
    assert((ONE as int) * den == den * (ONE as int)) by (nonlinear_arith);
}

/// The sine approximation stays within one unit for every angle.
pub proof fn lemma_sin_deg_bounds(x: int)
    ensures
        -ONE <= sin_deg_spec(x) <= ONE,
{
    lemma_mod_bound(x, DEG360 as int);
    let m = x % (DEG360 as int);
    if m <= DEG180 {
        lemma_sin_half_bounds(m);
    } else {
        lemma_sin_half_bounds(m - DEG180);
    }
}

/// Sine of an angle between 0 and 180 scaled degrees.
fn sin_half(x: i64) -> (r: i64)
    requires
        0 <= x <= DEG180,
    ensures
        r == sin_half_spec(x as int),
        0 <= r <= ONE,
{
    proof {
        lemma_sin_half_bounds(x as int);
        assert(0 <= (x as int) * ((DEG180 - x) as int) <= 34789235097600) by (nonlinear_arith)
            requires
                0 <= x <= DEG180,
        ;
    }
    let p: i128 = (x as i128) * ((DEG180 - x) as i128);
    let num: i128 = 4 * (ONE as i128) * p;
    let den: i128 = (SIN_DENOM as i128) - p;
    proof {
        assert(num == 4 * ONE * (x as int) * (DEG180 - x as int)) by (nonlinear_arith)
            requires
                num == 4 * (ONE as int) * ((x as int) * ((DEG180 - x) as int)),
        ;
    }
    let q = div_q_i128(num, den);
    q as i64
}

/// Sine of an arbitrary angle in scaled degrees.
pub fn sin_deg(x: i64) -> (r: i64)
    ensures
        r == sin_deg_spec(x as int),
        -ONE <= r <= ONE,
{
    let q = div_q_i128(x as i128, DEG360 as i128);
    proof {
        lemma_fundamental_div_mod(x as int, DEG360 as int);
        lemma_mod_bound(x as int, DEG360 as int);
    }
    let m: i64 = (x as i128 - (DEG360 as i128) * q) as i64;
    assert(m == (x as int) % (DEG360 as int));
    if m <= DEG180 {
        sin_half(m)
    } else {
        -sin_half(m - DEG180)
    }
}

/// Cosine of an arbitrary angle in scaled degrees.
pub fn cos_deg(x: i64) -> (r: i64)
    requires
        x + DEG90 <= i64::MAX,
    ensures
        r == cos_deg_spec(x as int),
        -ONE <= r <= ONE,
{
    sin_deg(x + DEG90)
}

/// Piecewise-linear approximation of the negative natural logarithm of
/// `u / ONE` for `u` between 1 and `ONE`, scaled by `ONE`: repeated
/// doubling contributes `LN2_FP` per octave and a chord interpolates the
/// final octave.
pub open spec fn neg_log_spec(u: int) -> int
    decreases ONE - u,
{
    if u <= 0 {
        0
    } else if 2 * u > ONE {
        ((ONE - u) * 2 * LN2_FP) / (ONE as int)
    } else {
        LN2_FP + neg_log_spec(2 * u)
    }
}

/// Negative logarithm approximation, used to sample free-flight distances
/// inside a constant-density medium.
pub fn neg_log(u: i64) -> (r: i64)
    requires
        1 <= u <= ONE,
    ensures
        r == neg_log_spec(u as int),
        0 <= r <= 17 * LN2_FP,
{
    let mut v: i64 = u;
    let mut k: i64 = 0;
    proof {
        vstd::arithmetic::power2::lemma2_to64();
    }
    while 2 * v <= ONE
        invariant
            1 <= v <= ONE,
            0 <= k <= 16,
            vstd::arithmetic::power2::pow2(k as nat) <= v,
            neg_log_spec(u as int) == k * LN2_FP + neg_log_spec(v as int),
        decreases ONE - v,
    {
        proof {
            vstd::arithmetic::power2::lemma2_to64();
            vstd::arithmetic::power2::lemma_pow2_adds(k as nat, 1);
            assert(vstd::arithmetic::power2::pow2((k + 1) as nat) <= 2 * v);
            if k == 16 {
                assert(vstd::arithmetic::power2::pow2(16) == 65536);
                assert(false);
            }
        }
        v = 2 * v;
        k = k + 1;
    }
    let num: i128 = ((ONE - v) as i128) * 2 * (LN2_FP as i128);
    let q = div_q_i128(num, ONE as i128);
    proof {
        vstd::arithmetic::div_mod::lemma_div_pos_is_pos(num as int, ONE as int);
        assert(num <= (ONE as int) * LN2_FP) by (nonlinear_arith)
            requires
                num == ((ONE - v) as int) * 2 * (LN2_FP as int),
                2 * v > ONE,
                v <= ONE,
        ;
        vstd::arithmetic::div_mod::lemma_div_is_ordered(num as int, (ONE as int) * LN2_FP, ONE as int);
        vstd::arithmetic::div_mod::lemma_div_multiples_vanish(LN2_FP as int, ONE as int);
        assert((ONE as int) * LN2_FP == (ONE as int) * (LN2_FP as int)) by (nonlinear_arith);
    }
    k * LN2_FP + (q as i64)
}


/// Dividing by a positive integer shrinks the range: the quotient of any
/// `n` between `-b` and `b` stays within one unit of `b / d` on each side.
pub proof fn lemma_div_range(n: int, d: int, b: int)
    requires
        d >= 1,
        -b <= n <= b,
    ensures
        -(b / d) - 1 <= n / d <= b / d,
{
    vstd::arithmetic::div_mod::lemma_div_is_ordered(n, b, d);
    vstd::arithmetic::div_mod::lemma_div_is_ordered(-b, n, d);
    lemma_fundamental_div_mod(b, d);
    lemma_mod_bound(b, d);
    let q = b / d;
    let r = b % d;
    if r == 0 {
        assert(-b == (-q) * d + 0) by (nonlinear_arith)
            requires
                b == d * q + r,
                r == 0,
        ;
        lemma_fundamental_div_mod_converse(-b, d, -q, 0);
    } else {
        assert(-b == (-q - 1) * d + (d - r)) by (nonlinear_arith)
            requires
                b == d * q + r,
        ;
        lemma_fundamental_div_mod_converse(-b, d, -q - 1, d - r);
    }
}


/// The fixed-point square root: the square root of the value rescaled so
/// the result is again a fixed-point scalar.
pub fn sqrt_fp(x: i64) -> (r: i64)
    requires
        0 <= x,
    ensures
        r == sqrt_floor(x * ONE),
        is_sqrt_floor(x * ONE, r as int),
        0 <= r <= 0x200_0000_0000,
{
    proof {
        assert((x as int) * (ONE as int) <= 0x7FFF_FFFF_FFFF_FFFF_0000) by (nonlinear_arith)
            requires
                0 <= x <= 0x7FFF_FFFF_FFFF_FFFF,
        ;
    }
    let n: u128 = (x as u128) * (ONE as u128);
    let s = isqrt_u128(n);
    proof {
        assert((s as int) <= 0x200_0000_0000) by (nonlinear_arith)
            requires
                (s as int) * (s as int) <= (n as int),
                (n as int) <= 0x7FFF_FFFF_FFFF_FFFF_0000,
                0 <= (s as int),
        ;
    }
    s as i64
}

/// The product of two scalars within one unit, rescaled, is again within
/// one unit.
pub proof fn lemma_mul_q_unit(a: int, b: int)
    requires
        -ONE <= a <= ONE,
        -ONE <= b <= ONE,
    ensures
        -ONE <= mul_q(a, b) <= ONE,
{
    assert(-(ONE as int) * ONE <= a * b <= (ONE as int) * ONE) by (nonlinear_arith)
        requires
            -ONE <= a <= ONE,
            -ONE <= b <= ONE,
    ;
    vstd::arithmetic::div_mod::lemma_div_is_ordered(a * b, (ONE as int) * ONE, ONE as int);
    vstd::arithmetic::div_mod::lemma_div_is_ordered(-(ONE as int) * ONE, a * b, ONE as int);
    vstd::arithmetic::div_mod::lemma_div_multiples_vanish(ONE as int, ONE as int);
    vstd::arithmetic::div_mod::lemma_div_multiples_vanish(-(ONE as int), ONE as int);
    assert((ONE as int) * ONE == (ONE as int) * (ONE as int)) by (nonlinear_arith);
    assert(-(ONE as int) * ONE == (-(ONE as int)) * (ONE as int)) by (nonlinear_arith);
}

/// Magnitude bound for a rescaled product, from magnitude bounds on the
/// factors.
pub proof fn lemma_mul_q_bound(a: int, b: int, ba: int, bb: int)
    requires
        -ba <= a <= ba,
        -bb <= b <= bb,
        0 <= ba,
        0 <= bb,
    ensures
        -((ba * bb) / (ONE as int)) - 1 <= mul_q(a, b) <= (ba * bb) / (ONE as int),
{
    assert(-(ba * bb) <= a * b <= ba * bb) by (nonlinear_arith)
        requires
            -ba <= a <= ba,
            -bb <= b <= bb,
            0 <= ba,
            0 <= bb,
    ;
    lemma_div_range(a * b, ONE as int, ba * bb);
}


/// `n / p >= k` exactly when `n >= k * p`, for positive `p`.
pub proof fn lemma_div_ge_iff(n: int, k: int, p: int)
    requires
        p > 0,
    ensures
        (n / p >= k) <==> (n >= k * p),
{
    if n >= k * p {
        vstd::arithmetic::div_mod::lemma_div_is_ordered(k * p, n, p);
        vstd::arithmetic::div_mod::lemma_div_multiples_vanish(k, p);
        assert(k * p == p * k) by (nonlinear_arith);
    }
    if n / p >= k {
        lemma_fundamental_div_mod(n, p);
        lemma_mod_bound(n, p);
        assert(p * (n / p) >= p * k) by (nonlinear_arith)
            requires
                p > 0,
                n / p >= k,
        ;
        assert(p * k == k * p) by (nonlinear_arith);
    }
}

/// `t * p >= n` exactly when `t` is at least the ceiling of `n / p`, for
/// positive `p`.
pub proof fn lemma_mul_ge_iff(t: int, n: int, p: int)
    requires
        p > 0,
    ensures
        (t * p >= n) <==> (t >= (n + p - 1) / p),
{
    let q = (n + p - 1) / p;
    let r = (n + p - 1) % p;
    lemma_fundamental_div_mod(n + p - 1, p);
    lemma_mod_bound(n + p - 1, p);
    assert(q * p == p * q) by (nonlinear_arith);
    if t >= q {
        assert(t * p >= q * p) by (nonlinear_arith)
            requires
                t >= q,
                p > 0,
        ;
    }
    if t * p >= n {
        if t <= q - 1 {
            assert(t * p <= (q - 1) * p) by (nonlinear_arith)
                requires
                    t <= q - 1,
                    p > 0,
            ;
            assert((q - 1) * p == p * q - p) by (nonlinear_arith);
        }
    }
}

/// `t * p <= m` exactly when `t` is at most the floor of `m / p`, for
/// positive `p`.
pub proof fn lemma_mul_le_iff(t: int, m: int, p: int)
    requires
        p > 0,
    ensures
        (t * p <= m) <==> (t <= m / p),
{
    let q = m / p;
    let r = m % p;
    lemma_fundamental_div_mod(m, p);
    lemma_mod_bound(m, p);
    assert(q * p == p * q) by (nonlinear_arith);
    if t <= q {
        assert(t * p <= q * p) by (nonlinear_arith)
            requires
                t <= q,
                p > 0,
        ;
    }
    if t * p <= m {
        if t >= q + 1 {
            assert(t * p >= (q + 1) * p) by (nonlinear_arith)
                requires
                    t >= q + 1,
                    p > 0,
            ;
            assert((q + 1) * p == p * q + p) by (nonlinear_arith);
        }
    }
}


/// A fixed-point quotient with a non-negative numerator is bounded by the
/// rescaled numerator, whatever the divisor's sign.
pub proof fn lemma_quot_q_abs(a: int, b: int)
    requires
        b != 0,
        0 <= a,
    ensures
        -(a * ONE) <= quot_q(a, b) <= a * ONE,
{
    if b > 0 {
        vstd::arithmetic::div_mod::lemma_div_basics_5(a * ONE, b);
    } else {
        vstd::arithmetic::div_mod::lemma_div_basics_5(a * ONE, -b);
    }
}


/// Every non-negative integer has a square-root floor, so `sqrt_floor`
/// denotes it.
pub proof fn lemma_sqrt_floor_exists(n: int)
    requires
        n >= 0,
    ensures
        is_sqrt_floor(n, sqrt_floor(n)),
        0 <= sqrt_floor(n),
    decreases n,
{
    if n == 0 {
        assert(is_sqrt_floor(0, 0));
        lemma_sqrt_floor_unique(0, 0);
    } else {
        lemma_sqrt_floor_exists(n - 1);
        let r = sqrt_floor(n - 1);
        if (r + 1) * (r + 1) <= n {
            assert(is_sqrt_floor(n, r + 1)) by (nonlinear_arith)
                requires
                    is_sqrt_floor(n - 1, r),
                    (r + 1) * (r + 1) <= n,
            ;
            lemma_sqrt_floor_unique(n, r + 1);
        } else {
            assert(is_sqrt_floor(n, r));
            lemma_sqrt_floor_unique(n, r);
        }
    }
}


/// The fixed-point quotient of a bounded numerator fits within the
/// rescaled bound, whatever the divisor.
pub proof fn lemma_quot_q_fits(a: int, b: int, ba: int)
    requires
        b != 0,
        -ba <= a <= ba,
        0 <= ba,
    ensures
        -(ba * 65536) - 1 <= quot_q(a, b) <= ba * 65536 + 1,
{
    assert(-(ba * 65536) <= a * ONE <= ba * 65536) by (nonlinear_arith)
        requires
            -ba <= a <= ba,
            0 <= ba,
            ONE == 65536,
    ;
    if b > 0 {
        lemma_div_range(a * ONE, b, ba * 65536);
        vstd::arithmetic::div_mod::lemma_div_basics_5(ba * 65536, b);
    } else {
        lemma_div_range(a * ONE, -b, ba * 65536);
        vstd::arithmetic::div_mod::lemma_div_basics_5(ba * 65536, -b);
    }
}


/// Degrees to radians, both scaled by `ONE`.
pub fn degree_to_radians(degree: i64) -> (r: i64)
    requires
        -0x1000_0000_0000 <= degree <= 0x1000_0000_0000,
    ensures
        r == div_q(degree * PI_FP, 180 * ONE),
{
    proof {
        assert(-0x4000_0000_0000_0000_0000 <= (degree as int) * PI_FP
            <= 0x4000_0000_0000_0000_0000) by (nonlinear_arith)
            requires
                -0x1000_0000_0000 <= degree <= 0x1000_0000_0000,
                PI_FP == 205887,
        ;
        lemma_div_range((degree as int) * PI_FP, 180 * ONE as int, 0x4000_0000_0000_0000_0000);
    }
    let n: i128 = (degree as i128) * (PI_FP as i128);
    let q = div_q_i128(n, 180 * ONE as i128);
    q as i64
}

} // verus!
