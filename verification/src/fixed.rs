//! Fixed-point scalar arithmetic.
//!
//! A scalar is an `i64` holding a real value scaled by `FP_ONE` (16
//! fractional bits).  All operations round towards negative infinity, so
//! their results are exactly the mathematical floor expressions stated in
//! the contracts.

use vstd::prelude::*;

verus! {

use vstd::arithmetic::div_mod::{
    lemma_fundamental_div_mod,
    lemma_fundamental_div_mod_converse,
    lemma_div_is_ordered,
    lemma_div_nonincreasing,
    lemma_div_pos_is_pos,
};

/// The fixed-point representation of 1.0: scalars carry 16 fractional bits.
pub const FP_ONE: i64 = 65536;

/// Half of `FP_ONE`, the representation of 0.5.
pub const FP_HALF: i64 = 32768;

/// Magnitude bound on the operands of `fp_mul` (1 << 39).
pub const FP_MUL_LIMIT: i64 = 549755813888;

/// Magnitude bound on the dividend of `fp_div` (1 << 46).
pub const FP_DIV_LIMIT: i64 = 70368744177664;

/// Floor division on mathematical integers: rounds towards negative
/// infinity whatever the signs of the operands.
pub open spec fn fdiv(a: int, b: int) -> int {
    if b >= 0 {
        a / b
    } else {
        (-a) / (-b)
    }
}

/// The mathematical value of a fixed-point product.
pub open spec fn fpm(a: int, b: int) -> int {
    fdiv(a * b, FP_ONE as int)
}

/// The mathematical value of a fixed-point quotient.
pub open spec fn fpd(a: int, b: int) -> int {
    fdiv(a * FP_ONE as int, b)
}

/// `r` is the floor of the square root of `n`.
pub open spec fn is_sqrt_floor(n: int, r: int) -> bool {
    0 <= r && r * r <= n < (r + 1) * (r + 1)
}

/// The floor square root itself, defined by its characterization.
pub open spec fn sqrt_floor(n: int) -> int {
    choose|r: int| is_sqrt_floor(n, r)
}

/// Any witness of the square-root characterization is the floor square root.
pub proof fn lemma_sqrt_floor_unique(n: int, r: int)
    requires
        is_sqrt_floor(n, r),
    ensures
        sqrt_floor(n) == r,
{
    let c = sqrt_floor(n);
    assert(is_sqrt_floor(n, c)) by {
        assert(exists|x: int| is_sqrt_floor(n, x));
    }
    assert(c == r) by (nonlinear_arith)
        requires
            0 <= r,
            r * r <= n,
            n < (r + 1) * (r + 1),
            0 <= c,
            c * c <= n,
            n < (c + 1) * (c + 1),
    ;
}

/// Every non-negative integer has a floor square root.
pub proof fn lemma_sqrt_floor_exists(n: int)
    requires
        n >= 0,
    ensures
        is_sqrt_floor(n, sqrt_floor(n)),
    decreases n,
{
    if n == 0 {
        assert(is_sqrt_floor(0, 0));
    } else {
        lemma_sqrt_floor_exists(n - 1);
        let r = sqrt_floor(n - 1);
        if (r + 1) * (r + 1) <= n {
            assert(is_sqrt_floor(n, r + 1)) by (nonlinear_arith)
                requires
                    0 <= r,
                    r * r <= n - 1,
                    n - 1 < (r + 1) * (r + 1),
                    (r + 1) * (r + 1) <= n,
            ;
        } else {
            assert(is_sqrt_floor(n, r));
        }
    }
    assert(exists|x: int| is_sqrt_floor(n, x));
    let c = sqrt_floor(n);
    assert(is_sqrt_floor(n, c));
}

/// Multiplying by the fixed-point one changes nothing.
pub proof fn lemma_fpm_one(a: int)
    ensures
        fpm(a, FP_ONE as int) == a,
{
    vstd::arithmetic::div_mod::lemma_div_multiples_vanish(a, FP_ONE as int);
    assert(a * FP_ONE as int == FP_ONE as int * a) by (nonlinear_arith);
}

/// A fixed-point product is symmetric in its operands.
pub proof fn lemma_fpm_comm(a: int, b: int)
    ensures
        fpm(a, b) == fpm(b, a),
{
    vstd::arithmetic::mul::lemma_mul_is_commutative(a, b);
}

/// Bounds on the operands give a bound on the fixed-point product.
pub proof fn lemma_fpm_abs(a: int, b: int, ma: int, mb: int, m: int)
    requires
        0 <= ma,
        0 <= mb,
        0 <= m,
        -ma <= a <= ma,
        -mb <= b <= mb,
        ma * mb <= m * FP_ONE as int,
    ensures
        -m <= fpm(a, b) <= m,
{
    assert(-(m * FP_ONE as int) <= a * b <= m * FP_ONE as int) by (nonlinear_arith)
        requires
            0 <= ma,
            0 <= mb,
            -ma <= a <= ma,
            -mb <= b <= mb,
            ma * mb <= m * FP_ONE as int,
    ;
    lemma_fdiv_abs_le(a * b, FP_ONE as int, m);
}

/// Division with a positive divisor and a negative dividend is the negated
/// rounded-up quotient of the magnitudes.
proof fn lemma_neg_div(m: int, d: int)
    requires
        m > 0,
        d > 0,
    ensures
        (-m) / d == -((m + d - 1) / d),
{
    let c = (m + d - 1) / d;
    lemma_fundamental_div_mod(m + d - 1, d);
    let r = (m + d - 1) % d;
    assert(m + d - 1 == d * c + r);
    assert(-m == d * (-c) + (d - 1 - r)) by {
        assert(d * (-c) == -(d * c)) by (nonlinear_arith);
    }
    lemma_fundamental_div_mod_converse(-m, d, -c, d - 1 - r);
}

/// For a positive divisor, floor division keeps the dividend's magnitude
/// bound and the dividend's sign on the positive side.
pub proof fn lemma_fdiv_bounds(a: int, b: int, m: int)
    requires
        b > 0,
        0 <= m,
        -m <= a <= m,
    ensures
        -m <= fdiv(a, b) <= m,
        a >= 0 ==> 0 <= fdiv(a, b),
{
    lemma_fundamental_div_mod(a, b);
    let q = a / b;
    let r = a % b;
    assert(-m <= q <= m && (a >= 0 ==> q >= 0)) by (nonlinear_arith)
        requires
            b >= 1,
            0 <= r < b,
            a == b * q + r,
            -m <= a <= m,
            0 <= m,
    ;
}

/// If the dividend is at most `m` times a positive divisor in magnitude,
/// the floor quotient's magnitude is at most `m`.
pub proof fn lemma_fdiv_abs_le(a: int, b: int, m: int)
    requires
        b > 0,
        0 <= m,
        -(m * b) <= a <= m * b,
    ensures
        -m <= fdiv(a, b) <= m,
{
    lemma_fundamental_div_mod(a, b);
    let q = a / b;
    let r = a % b;
    assert(-m <= q <= m) by (nonlinear_arith)
        requires
            b >= 1,
            0 <= r < b,
            a == b * q + r,
            -(m * b) <= a <= m * b,
            0 <= m,
    ;
}

/// The floor quotient lies just below the true quotient:
/// `b * fdiv(a, b) <= a < b * (fdiv(a, b) + 1)` for a positive divisor.
pub proof fn lemma_fdiv_range(a: int, b: int)
    requires
        b > 0,
    ensures
        b * fdiv(a, b) <= a < b * (fdiv(a, b) + 1),
{
    lemma_fundamental_div_mod(a, b);
    let q = a / b;
    let r = a % b;
    assert(b * q <= a < b * (q + 1)) by (nonlinear_arith)
        requires
            b >= 1,
            0 <= r < b,
            a == b * q + r,
    ;
}

/// An integer at or above the true quotient is at or above the floor
/// quotient.
pub proof fn lemma_ge_fdiv(a: int, b: int, t: int)
    requires
        b > 0,
        t * b >= a,
    ensures
        t >= fdiv(a, b),
{
    lemma_fdiv_range(a, b);
    if t < fdiv(a, b) {
        vstd::arithmetic::mul::lemma_mul_inequality(t, fdiv(a, b) - 1, b);
        assert((fdiv(a, b) - 1) * b == b * fdiv(a, b) - b) by (nonlinear_arith);
        assert(false);
    }
}

/// An integer at or below the true quotient is at or below the floor
/// quotient.
pub proof fn lemma_le_fdiv(a: int, b: int, t: int)
    requires
        b > 0,
        t * b <= a,
    ensures
        t <= fdiv(a, b),
{
    lemma_fdiv_range(a, b);
    if t > fdiv(a, b) {
        vstd::arithmetic::mul::lemma_mul_inequality(fdiv(a, b) + 1, t, b);
        assert((fdiv(a, b) + 1) * b == b * (fdiv(a, b) + 1)) by (nonlinear_arith);
        assert(false);
    }
}

/// Floor division by a positive divisor is monotone in the dividend.
pub proof fn lemma_fdiv_mono(a1: int, a2: int, b: int)
    requires
        b > 0,
        a1 <= a2,
    ensures
        fdiv(a1, b) <= fdiv(a2, b),
{
    lemma_div_is_ordered(a1, a2, b);
}

/// Negating both operands leaves the floor quotient unchanged.
pub proof fn lemma_fdiv_neg(a: int, b: int)
    requires
        b != 0,
    ensures
        fdiv(-a, -b) == fdiv(a, b),
{
}

/// Floor division of 128-bit integers, via unsigned magnitude division.
pub fn floor_div_i128(a: i128, b: i128) -> (q: i128)
    requires
        b != 0,
        -0x4000_0000_0000_0000_0000_0000_0000_0000 < a
            < 0x4000_0000_0000_0000_0000_0000_0000_0000,
        -0x4000_0000_0000_0000_0000_0000_0000_0000 < b
            < 0x4000_0000_0000_0000_0000_0000_0000_0000,
    ensures
        q == fdiv(a as int, b as int),
        a >= 0 && b > 0 ==> 0 <= q <= a,
{
    let (a2, b2): (i128, i128) = if b < 0 { (-a, -b) } else { (a, b) };
    proof {
        assert(fdiv(a as int, b as int) == fdiv(a2 as int, b2 as int));
    }
    let du: u128 = b2 as u128;
    if a2 >= 0 {
        let qu: u128 = (a2 as u128) / du;
        proof {
            assert(qu == a2 as int / b2 as int);
            lemma_div_nonincreasing(a2 as int, b2 as int);
            lemma_div_pos_is_pos(a2 as int, b2 as int);
        }
        qu as i128
    } else {
        let m: u128 = (-a2) as u128;
        let c: u128 = (m + du - 1) / du;
        proof {
            lemma_neg_div((-a2) as int, b2 as int);
            assert(c == ((-a2) + b2 - 1) as int / b2 as int);
            lemma_div_is_ordered((-a2) as int, (-a2) + b2 - 1, b2 as int);
            lemma_div_nonincreasing(((-a2) + b2 - 1) as int, b2 as int);
            lemma_div_pos_is_pos((-a2) as int, b2 as int);
        }
        -(c as i128)
    }
}

/// Truncating division on mathematical integers: rounds towards zero.
/// Unlike `fdiv` it is antisymmetric in the dividend, which the cross
/// product relies on.
pub open spec fn tdiv(a: int, b: int) -> int {
    if a >= 0 {
        fdiv(a, b)
    } else {
        -fdiv(-a, b)
    }
}

/// The truncating quotient by the scale, as the cross product uses it.
pub open spec fn tpm(a: int) -> int {
    tdiv(a, FP_ONE as int)
}

/// Negating the dividend negates the truncating quotient.
pub proof fn lemma_tdiv_neg(a: int, b: int)
    requires
        b != 0,
    ensures
        tdiv(-a, b) == -tdiv(a, b),
{
    if a == 0 {
        if b > 0 {
            vstd::arithmetic::div_mod::lemma_div_of0(b);
        } else {
            vstd::arithmetic::div_mod::lemma_div_of0(-b);
        }
    }
}

/// The truncating quotient is bounded whenever the floor quotient of the
/// magnitude is.
pub proof fn lemma_tdiv_abs_le(a: int, b: int, m: int)
    requires
        b > 0,
        0 <= m,
        -(m * b) <= a <= m * b,
    ensures
        -m <= tdiv(a, b) <= m,
{
    if a >= 0 {
        lemma_fdiv_abs_le(a, b, m);
    } else {
        lemma_fdiv_abs_le(-a, b, m);
    }
}

/// Truncating division of 128-bit integers.
pub fn trunc_div_i128(a: i128, b: i128) -> (q: i128)
    requires
        b > 0,
        -0x4000_0000_0000_0000_0000_0000_0000_0000 < a
            < 0x4000_0000_0000_0000_0000_0000_0000_0000,
        b < 0x4000_0000_0000_0000_0000_0000_0000_0000,
    ensures
        q == tdiv(a as int, b as int),
{
    if a >= 0 {
        floor_div_i128(a, b)
    } else {
        -floor_div_i128(-a, b)
    }
}

/// Fixed-point product: the floor of `a * b / FP_ONE`.
pub fn fp_mul(a: i64, b: i64) -> (r: i64)
    requires
        -FP_MUL_LIMIT <= a <= FP_MUL_LIMIT,
        -FP_MUL_LIMIT <= b <= FP_MUL_LIMIT,
    ensures
        r == fpm(a as int, b as int),
        -0x4000_0000_0000_0000 <= r <= 0x4000_0000_0000_0000,
{
    proof {
        assert(-0x4000_0000_0000_0000_0000 <= a as int * b as int
            <= 0x4000_0000_0000_0000_0000) by (nonlinear_arith)
            requires
                -FP_MUL_LIMIT <= a <= FP_MUL_LIMIT,
                -FP_MUL_LIMIT <= b <= FP_MUL_LIMIT,
        ;
    }
    let p: i128 = (a as i128) * (b as i128);
    let q: i128 = floor_div_i128(p, FP_ONE as i128);
    proof {
        assert(0x4000_0000_0000_0000int * FP_ONE as int == 0x4000_0000_0000_0000_0000int);
        lemma_fdiv_abs_le(p as int, FP_ONE as int, 0x4000_0000_0000_0000);
    }
    q as i64
}

/// Fixed-point quotient: the floor of `a * FP_ONE / b`.
pub fn fp_div(a: i64, b: i64) -> (r: i64)
    requires
        b != 0,
        -FP_DIV_LIMIT <= a <= FP_DIV_LIMIT,
    ensures
        r == fpd(a as int, b as int),
        -0x4000_0000_0000_0000 <= r <= 0x4000_0000_0000_0000,
{
    let p: i128 = (a as i128) * 65536;
    proof {
        assert(-0x4000_0000_0000_0000 <= p as int <= 0x4000_0000_0000_0000)
            by (nonlinear_arith)
            requires
                p as int == a as int * 65536,
                -FP_DIV_LIMIT <= a <= FP_DIV_LIMIT,
        ;
    }
    let q: i128 = floor_div_i128(p, b as i128);
    proof {
        let bp: int = if b >= 0 { b as int } else { -(b as int) };
        let ap: int = if b >= 0 { p as int } else { -(p as int) };
        assert(fdiv(p as int, b as int) == fdiv(ap, bp));
        assert(-(0x4000_0000_0000_0000 * bp) <= ap <= 0x4000_0000_0000_0000 * bp)
            by (nonlinear_arith)
            requires
                bp >= 1,
                -0x4000_0000_0000_0000 <= ap <= 0x4000_0000_0000_0000,
        ;
        lemma_fdiv_abs_le(ap, bp, 0x4000_0000_0000_0000);
    }
    q as i64
}

/// Floor square root of an arbitrary 128-bit value, by bisection.
pub fn isqrt_u128(n: u128) -> (r: u64)
    ensures
        is_sqrt_floor(n as int, r as int),
{
    let mut lo: u128 = 0;
    let mut hi: u128 = 0x1_0000_0000_0000_0000;
    proof {
        assert(hi * hi > n) by (nonlinear_arith)
            requires
                hi == 0x1_0000_0000_0000_0000u128,
                n <= 0xffff_ffff_ffff_ffff_ffff_ffff_ffff_ffffu128,
        ;
    }
    while hi - lo > 1
        invariant
            lo < hi <= 0x1_0000_0000_0000_0000,
            lo * lo <= n,
            n < hi * hi,
        decreases hi - lo,
    {
        let mid: u128 = lo + (hi - lo) / 2;
        proof {
            assert(lo < mid < hi);
            assert(mid * mid <= 0xffff_ffff_ffff_ffff_ffff_ffff_ffff_ffffu128)
                by (nonlinear_arith)
                requires
                    mid < 0x1_0000_0000_0000_0000u128,
            ;
        }
        if mid * mid <= n {
            lo = mid;
        } else {
            hi = mid;
        }
    }
    proof {
        assert((lo + 1) * (lo + 1) > n);
    }
    lo as u64
}

/// Fixed-point square root: the floor square root of `a` read as a scalar.
pub fn fp_sqrt(a: i64) -> (r: i64)
    requires
        0 <= a,
    ensures
        is_sqrt_floor(a as int * FP_ONE as int, r as int),
        r == sqrt_floor(a as int * FP_ONE as int),
        0 <= r <= 0x3_0000_0000_0000,
{
    let n: u128 = (a as u128) * 65536;
    proof {
        assert(n as int <= 0x7fff_ffff_ffff_ffffint * 0x1_0000int) by (nonlinear_arith)
            requires
                n as int == a as int * 65536,
                0 <= a <= 0x7fff_ffff_ffff_ffff,
        ;
    }
    let r: u64 = isqrt_u128(n);
    proof {
        lemma_sqrt_floor_unique(n as int, r as int);
        assert(r as int * r as int <= n as int);
        assert(r <= 0x3_0000_0000_0000) by (nonlinear_arith)
            requires
                r as int * r as int <= n as int,
                n as int <= 0x7fff_ffff_ffff_ffffint * 0x1_0000int,
        ;
    }
    r as i64
}

/// Clamp a scalar into `[lo, hi]`.
pub fn fp_clamp(x: i64, lo: i64, hi: i64) -> (r: i64)
    requires
        lo <= hi,
    ensures
        r == if x < lo { lo } else if x > hi { hi } else { x },
{
    if x < lo {
        lo
    } else if x > hi {
        hi
    } else {
        x
    }
}

} // verus!
