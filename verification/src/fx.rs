//! Fixed-point scalar arithmetic.
//!
//! A scalar is an `i64` counted in thousandths (`SCALE` per unit).
//! Multiplication of two scalars divides the wide product by `SCALE`,
//! truncating toward zero, exactly as the spec functions below state.

use vstd::prelude::*;

verus! {

/// Fixed-point denominator: one world unit.
pub const SCALE: i64 = 1000;

/// Division truncating toward zero (the `/` of machine integers),
/// for a positive divisor.
pub open spec fn tdiv(a: int, d: int) -> int
    recommends
        d > 0,
{
    if a >= 0 {
        a / d
    } else {
        -((-a) / d)
    }
}

/// Fixed-point product: `a * b / SCALE`, truncating toward zero.
pub open spec fn smul(a: int, b: int) -> int {
    tdiv(a * b, SCALE as int)
}

/// Magnitude of an integer.
pub open spec fn absi(a: int) -> int {
    if a >= 0 {
        a
    } else {
        -a
    }
}

/// The magnitude of a product is the product of the magnitudes.
pub proof fn lemma_abs_mul(a: int, b: int)
    ensures
        absi(a * b) == absi(a) * absi(b),
{
    assert(absi(a * b) == absi(a) * absi(b)) by (nonlinear_arith);
}

/// Bound a product from bounds on its factors.
pub proof fn lemma_mul_range(a: int, b: int, aa: int, bb: int)
    requires
        -aa <= a <= aa,
        -bb <= b <= bb,
        0 <= aa,
        0 <= bb,
    ensures
        -(aa * bb) <= a * b <= aa * bb,
{
    assert(-(aa * bb) <= a * b <= aa * bb) by (nonlinear_arith)
        requires
            -aa <= a <= aa,
            -bb <= b <= bb,
            0 <= aa,
            0 <= bb,
    ;
}

/// Truncating division shrinks magnitude: `|tdiv(a, d)| * d <= |a|`.
pub proof fn lemma_tdiv_bound(a: int, d: int)
    requires
        d > 0,
    ensures
        absi(tdiv(a, d)) * d <= absi(a),
        absi(tdiv(a, d)) <= absi(a),
{
    let n = absi(a);
    let q = n / d;
    vstd::arithmetic::div_mod::lemma_div_pos_is_pos(n, d);
    vstd::arithmetic::div_mod::lemma_div_nonincreasing(n, d);
    vstd::arithmetic::div_mod::lemma_fundamental_div_mod(n, d);
    vstd::arithmetic::div_mod::lemma_mod_bound(n, d);
    assert(q * d == d * q) by (nonlinear_arith);
    assert(absi(tdiv(a, d)) == q);
}

/// Bound a fixed-point product from bounds on its factors:
/// `1000 * |smul(a, b)| <= aa * bb`.  With literal bounds at the call
/// site the conclusion is linear for the caller.
pub proof fn lemma_smul_range(a: int, b: int, aa: int, bb: int)
    requires
        -aa <= a <= aa,
        -bb <= b <= bb,
        0 <= aa,
        0 <= bb,
    ensures
        -(aa * bb) <= a * b <= aa * bb,
        -(aa * bb) <= 1000 * smul(a, b) <= aa * bb,
{
    lemma_mul_range(a, b, aa, bb);
    lemma_tdiv_bound(a * b, 1000);
    lemma_abs_mul(a, b);
    assert(1000 * absi(smul(a, b)) == absi(smul(a, b)) * 1000);
}

/// Magnitude of an `i64`, away from the unrepresentable minimum.
pub fn absv(a: i64) -> (r: u64)
    requires
        a != i64::MIN,
    ensures
        r == absi(a as int),
{
    if a >= 0 {
        a as u64
    } else {
        (-a) as u64
    }
}

/// Fixed-point multiplication, truncating toward zero.
pub fn fmul(a: i64, b: i64) -> (r: i64)
    requires
        a != i64::MIN,
        b != i64::MIN,
        -0x4000_0000_0000_0000 <= (a as int) * (b as int) <= 0x4000_0000_0000_0000,
    ensures
        r == smul(a as int, b as int),
{
    let neg = (a < 0) != (b < 0);
    let ma = absv(a);
    let mb = absv(b);
    proof {
        lemma_mul_range(ma as int, mb as int, u64::MAX as int, u64::MAX as int);
    }
    let p: u128 = (ma as u128) * (mb as u128);
    proof {
        lemma_abs_mul(a as int, b as int);
        assert(p == absi((a as int) * (b as int)));
    }
    let q: u128 = p / 1000;
    proof {
        assert(q <= 0x4000_0000_0000_0000int / 1000);
    }
    if neg {
        proof {
            if (a as int) * (b as int) > 0 {
                assert(!((a < 0) != (b < 0))) by (nonlinear_arith)
                    requires
                        (a as int) * (b as int) > 0,
                        a != i64::MIN,
                        b != i64::MIN,
                ;
            }
            assert((a as int) * (b as int) <= 0);
        }
        -(q as i64)
    } else {
        proof {
            if (a as int) * (b as int) < 0 {
                assert((a < 0) != (b < 0)) by (nonlinear_arith)
                    requires
                        (a as int) * (b as int) < 0,
                ;
            }
            assert((a as int) * (b as int) >= 0);
        }
        q as i64
    }
}

/// Integer square root: the greatest `r` with `r * r <= n`.
pub open spec fn sqf(n: nat) -> nat
    decreases n,
{
    if n == 0 {
        0
    } else {
        let r = sqf((n - 1) as nat);
        if (r + 1) * (r + 1) <= n {
            r + 1
        } else {
            r
        }
    }
}

/// `sqf(n)` is characterised by `sqf(n)^2 <= n < (sqf(n) + 1)^2`.
pub proof fn lemma_sqf(n: nat)
    ensures
        sqf(n) * sqf(n) <= n < (sqf(n) + 1) * (sqf(n) + 1),
    decreases n,
{
    if n == 0 {
        assert(sqf(n) == 0);
        assert((sqf(n) + 1) * (sqf(n) + 1) == 1) by (nonlinear_arith)
            requires
                sqf(n) == 0,
        ;
    } else {
        lemma_sqf((n - 1) as nat);
        let r = sqf((n - 1) as nat);
        assert(r * r <= n - 1 < (r + 1) * (r + 1));
        if (r + 1) * (r + 1) <= n {
            assert(sqf(n) == r + 1);
            assert(n <= (r + 1) * (r + 1));
            assert(((r + 1) + 1) * ((r + 1) + 1) > (r + 1) * (r + 1)) by (nonlinear_arith);
        } else {
            assert(sqf(n) == r);
        }
    }
}

/// No other value satisfies the square-root characterisation.
pub proof fn lemma_sqf_unique(n: nat, r: nat)
    requires
        r * r <= n,
        n < (r + 1) * (r + 1),
    ensures
        r == sqf(n),
{
    lemma_sqf(n);
    let s = sqf(n);
    if r < s {
        assert((r + 1) * (r + 1) <= s * s) by (nonlinear_arith)
            requires
                r < s,
        ;
    }
    if s < r {
        assert((s + 1) * (s + 1) <= r * r) by (nonlinear_arith)
            requires
                s < r,
        ;
    }
}

pub open spec fn imax(a: int, b: int) -> int {
    if a >= b {
        a
    } else {
        b
    }
}

/// An upper bound on a square gives an upper bound on the root.
pub proof fn lemma_sqf_le(n: nat, m: nat)
    requires
        n < (m + 1) * (m + 1),
    ensures
        sqf(n) <= m,
{
    lemma_sqf(n);
    if sqf(n) > m {
        assert((m + 1) * (m + 1) <= sqf(n) * sqf(n)) by (nonlinear_arith)
            requires
                m + 1 <= sqf(n),
        ;
    }
}

/// Integer square root by bisection.
pub fn isqrt(n: u128) -> (r: u64)
    ensures
        r == sqf(n as nat),
{
    let mut lo: u128 = 0;
    let mut hi: u128 = 0x1_0000_0000_0000_0000;
    proof {
        assert((0x1_0000_0000_0000_0000int) * (0x1_0000_0000_0000_0000int) > u128::MAX);
    }
    while lo + 1 < hi
        invariant
            lo * lo <= n,
            n < hi * hi,
            lo < hi <= 0x1_0000_0000_0000_0000,
        decreases hi - lo,
    {
        let mid = lo + (hi - lo) / 2;
        proof {
            lemma_mul_range(mid as int, mid as int, u64::MAX as int, u64::MAX as int);
        }
        if mid * mid <= n {
            lo = mid;
        } else {
            hi = mid;
        }
    }
    proof {
        lemma_sqf_unique(n as nat, lo as nat);
    }
    lo as u64
}

/// Division of a scalar by a positive count, truncating toward zero.
pub fn divn(a: i64, n: u64) -> (r: i64)
    requires
        n > 0,
        a != i64::MIN,
    ensures
        r == tdiv(a as int, n as int),
{
    if a >= 0 {
        ((a as u64) / n) as i64
    } else {
        -((((-a) as u64) / n) as i64)
    }
}

} // verus!
