//! Signed fixed-point scalars: an `i128` carrying a real value scaled by
//! `ONE` (2^16).  Multiplication and division truncate toward zero, and the
//! spec functions `fmul`, `fdiv` and `fsqrt` say exactly what the executable
//! operations return.

use vstd::prelude::*;
use vstd::arithmetic::div_mod::lemma_div_is_ordered;

verus! {

/// The fixed-point scale: the representation of the real number 1.
pub const ONE: i128 = 65536;

/// The representation of the real number 1/2.
pub const HALF: i128 = 32768;

/// Magnitude of an integer.
pub open spec fn iabs(a: int) -> int {
    if a < 0 { -a } else { a }
}

/// Division truncating toward zero, as Rust's `/` computes it.
pub open spec fn tdiv(a: int, b: int) -> int
    recommends
        b != 0,
{
    if (a < 0) == (b < 0) {
        iabs(a) / iabs(b)
    } else {
        -(iabs(a) / iabs(b))
    }
}

/// Fixed-point product: (a * b) / ONE, truncated toward zero.
pub open spec fn fmul(a: int, b: int) -> int {
    tdiv(a * b, ONE as int)
}

/// Fixed-point quotient: (a * ONE) / b, truncated toward zero.
pub open spec fn fdiv(a: int, b: int) -> int
    recommends
        b != 0,
{
    tdiv(a * ONE, b)
}

/// The integer square root, by its recursive definition; use
/// `lemma_sqf` for its characterisation.
pub open spec fn sqf(n: int) -> int
    decreases n,
{
    if n <= 0 {
        0
    } else {
        let r = sqf(n - 1);
        if (r + 1) * (r + 1) <= n {
            r + 1
        } else {
            r
        }
    }
}

/// Fixed-point square root: sqrt(x * ONE) keeps the scale, since
/// sqrt(v * ONE^2) = sqrt(v) * ONE for a real value v.
pub open spec fn fsqrt(x: int) -> int {
    sqf(x * ONE)
}

/// `sqf(n)` is the integer square root of `n` (for `n >= 0`).
pub proof fn lemma_sqf(n: int)
    ensures
        0 <= sqf(n),
        sqf(n) * sqf(n) <= iabs(n),
        n < (sqf(n) + 1) * (sqf(n) + 1),
    decreases n,
{
    if n <= 0 {
    } else {
        lemma_sqf(n - 1);
        let r = sqf(n - 1);
        assert(sqf(n) * sqf(n) <= iabs(n) && n < (sqf(n) + 1) * (sqf(n) + 1)) by (nonlinear_arith)
            requires
                0 <= r,
                r * r <= iabs(n - 1),
                n - 1 < (r + 1) * (r + 1),
                sqf(n) == (if (r + 1) * (r + 1) <= n { r + 1 } else { r }),
                n > 0,
        ;
    }
}

/// Two integers whose squares bracket `n` the same way are equal: the
/// integer square root is unique.
pub proof fn lemma_sqrt_unique(n: int, a: int, b: int)
    requires
        0 <= a,
        0 <= b,
        a * a <= n,
        n < (a + 1) * (a + 1),
        b * b <= n,
        n < (b + 1) * (b + 1),
    ensures
        a == b,
{
    assert(a == b) by (nonlinear_arith)
        requires
            0 <= a,
            0 <= b,
            a * a <= n,
            n < (a + 1) * (a + 1),
            b * b <= n,
            n < (b + 1) * (b + 1),
    ;
}

/// Truncating division shrinks magnitudes: |a / b| <= |a| / b <= |a| for b >= 1.
pub proof fn lemma_tdiv_mag(a: int, b: int)
    requires
        b >= 1,
    ensures
        iabs(tdiv(a, b)) <= iabs(a) / b,
        iabs(a) / b <= iabs(a),
        a >= 0 ==> 0 <= tdiv(a, b) <= a,
        a <= 0 ==> a <= tdiv(a, b) <= 0,
{
    assert(0 <= iabs(a) / b <= iabs(a)) by (nonlinear_arith)
        requires
            b >= 1,
    ;
}

/// Exact division: when b divides a, truncating division inverts the product.
pub proof fn lemma_tdiv_exact(q: int, b: int)
    requires
        b >= 1,
    ensures
        tdiv(q * b, b) == q,
{
    assert(iabs(q * b) == iabs(q) * b) by (nonlinear_arith)
        requires
            b >= 1,
    ;
    assert(iabs(q) * b / b == iabs(q)) by (nonlinear_arith)
        requires
            b >= 1,
    ;
    if q < 0 {
        assert(q * b < 0) by (nonlinear_arith)
            requires
                q < 0,
                b >= 1,
        ;
    } else if q > 0 {
        assert(q * b > 0) by (nonlinear_arith)
            requires
                q > 0,
                b >= 1,
        ;
    }
}

/// Magnitude cap for fixed-point products, from caps on the factors.
pub proof fn lemma_fmul_cap(a: int, b: int, ca: int, cb: int)
    requires
        iabs(a) <= ca,
        iabs(b) <= cb,
    ensures
        iabs(fmul(a, b)) <= (ca * cb) / (ONE as int),
        iabs(fmul(a, b)) <= ca * cb,
        iabs(a * b) <= ca * cb,
{
    assert(iabs(a * b) == iabs(a) * iabs(b) && iabs(a) * iabs(b) <= ca * cb) by (nonlinear_arith)
        requires
            iabs(a) <= ca,
            iabs(b) <= cb,
    ;
    lemma_tdiv_mag(a * b, ONE as int);
    lemma_div_is_ordered(iabs(a * b), ca * cb, ONE as int);
    assert((ca * cb) / (ONE as int) <= ca * cb) by (nonlinear_arith)
        requires
            ca * cb >= 0,
    ;
}

/// Signs: a nonnegative product of nonnegative factors, and an upper bound
/// by either factor when the other is at most ONE.
pub proof fn lemma_fmul_unit_range(a: int, b: int)
    requires
        0 <= a,
        0 <= b <= ONE,
    ensures
        0 <= fmul(a, b) <= a,
{
    assert(0 <= a * b <= a * (ONE as int)) by (nonlinear_arith)
        requires
            0 <= a,
            0 <= b <= ONE,
    ;
    lemma_tdiv_mag(a * b, ONE as int);
    lemma_div_is_ordered(a * b, a * (ONE as int), ONE as int);
    lemma_tdiv_exact(a, ONE as int);
}

/// Truncating division of `a` by a positive `b`, as an executable function.
pub fn div_t(a: i128, b: i128) -> (r: i128)
    requires
        b != 0,
        iabs(a as int) < 0x2000_0000_0000_0000_0000_0000_0000_0000,
        iabs(b as int) < 0x2000_0000_0000_0000_0000_0000_0000_0000,
    ensures
        r as int == tdiv(a as int, b as int),
{
    let neg: bool = (a < 0) != (b < 0);
    let ua: u128 = if a >= 0 { a as u128 } else { (-a) as u128 };
    let ub: u128 = if b >= 0 { b as u128 } else { (-b) as u128 };
    proof {
        assert(ua as int == iabs(a as int));
        assert(ub as int == iabs(b as int));
    }
    let q: u128 = ua / ub;
    proof {
        lemma_tdiv_mag(a as int, iabs(b as int));
        assert(q as int == iabs(a as int) / iabs(b as int));
    }
    if neg {
        -(q as i128)
    } else {
        q as i128
    }
}

/// Fixed-point product, exact per `fmul`.
pub fn mul_f(a: i128, b: i128) -> (r: i128)
    requires
        iabs((a as int) * (b as int)) < 0x2000_0000_0000_0000_0000_0000_0000_0000,
    ensures
        r as int == fmul(a as int, b as int),
{
    proof {
        assert(iabs((a as int) * (b as int)) == iabs(a as int) * iabs(b as int))
            by (nonlinear_arith);
    }
    let p: i128 = a * b;
    div_t(p, ONE)
}

/// Fixed-point quotient, exact per `fdiv`.
pub fn div_f(a: i128, b: i128) -> (r: i128)
    requires
        b != 0,
        iabs(a as int) < 0x80_0000_0000_0000_0000_0000_0000,
        iabs(b as int) < 0x2000_0000_0000_0000_0000_0000_0000_0000,
    ensures
        r as int == fdiv(a as int, b as int),
{
    proof {
        assert(iabs((a as int) * (ONE as int)) == iabs(a as int) * (ONE as int))
            by (nonlinear_arith);
    }
    let p: i128 = a * ONE;
    div_t(p, b)
}

/// Integer square root of a `u128`, by binary search.
pub fn isqrt_u(n: u128) -> (r: u128)
    ensures
        r as int == sqf(n as int),
        (r as int) * (r as int) <= n as int,
        (n as int) < ((r as int) + 1) * ((r as int) + 1),
{
    let mut lo: u128 = 0;
    let mut hi: u128 = 0x1_0000_0000_0000_0000;
    proof {
        assert((hi as int) * (hi as int) > n as int) by (nonlinear_arith)
            requires
                hi == 0x1_0000_0000_0000_0000u128,
                n <= u128::MAX,
        ;
    }
    while lo + 1 < hi
        invariant
            0 <= lo < hi <= 0x1_0000_0000_0000_0000,
            (lo as int) * (lo as int) <= n as int,
            (n as int) < (hi as int) * (hi as int),
        decreases hi - lo,
    {
        let mid: u128 = lo + (hi - lo) / 2;
        proof {
            assert(lo < mid < hi);
            assert((mid as int) * (mid as int) < 0x1_0000_0000_0000_0000_0000_0000_0000_0000)
                by (nonlinear_arith)
                requires
                    mid < 0x1_0000_0000_0000_0000u128,
            ;
        }
        if mid * mid <= n {
            lo = mid;
        } else {
            hi = mid;
        }
    }
    proof {
        assert(hi == lo + 1);
        lemma_sqf(n as int);
        lemma_sqrt_unique(n as int, lo as int, sqf(n as int));
    }
    lo
}

/// Fixed-point square root of a nonnegative scalar, exact per `fsqrt`.
pub fn sqrt_f(x: i128) -> (r: i128)
    requires
        0 <= x,
        x < 0x1000_0000_0000_0000_0000_0000_0000,
    ensures
        r as int == fsqrt(x as int),
        0 <= r,
        (r as int) * (r as int) <= (x as int) * (ONE as int),
        (x as int) * (ONE as int) < ((r as int) + 1) * ((r as int) + 1),
{
    let p: i128 = x * ONE;
    let r: u128 = isqrt_u(p as u128);
    proof {
        assert((r as int) * (r as int) <= p as int);
        assert(r < 0x1_0000_0000_0000_0000) by (nonlinear_arith)
            requires
                (r as int) * (r as int) <= p as int,
                (p as int) < 0x1_0000_0000_0000_0000_0000_0000_0000_0000int,
                r >= 0,
        ;
    }
    r as i128
}

/// Truncating division by a positive divisor is monotone in the dividend.
pub proof fn lemma_tdiv_mono(x: int, y: int, b: int)
    requires
        x <= y,
        b >= 1,
    ensures
        tdiv(x, b) <= tdiv(y, b),
{
    lemma_tdiv_mag(x, b);
    lemma_tdiv_mag(y, b);
    if 0 <= x {
        lemma_div_is_ordered(x, y, b);
    } else if y < 0 {
        lemma_div_is_ordered(-y, -x, b);
    }
}

/// When the divisor divides the dividend, truncating division is exact.
pub proof fn lemma_tdiv_of_multiple(a: int, b: int)
    requires
        b >= 1,
        a % b == 0,
    ensures
        tdiv(a, b) * b == a,
{
    vstd::arithmetic::div_mod::lemma_fundamental_div_mod(a, b);
    let q = a / b;
    assert(a == b * q);
    if a >= 0 {
        assert(tdiv(a, b) == q);
        assert(q * b == b * q) by (nonlinear_arith);
    } else {
        assert(-a == b * (-q)) by (nonlinear_arith)
            requires
                a == b * q,
        ;
        vstd::arithmetic::div_mod::lemma_div_multiples_vanish(-q, b);
        assert(tdiv(a, b) == -((-a) / b));
        assert(q * b == b * q) by (nonlinear_arith);
    }
}

} // verus!
