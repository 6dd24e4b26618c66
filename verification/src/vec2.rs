//! Fixed-point 2-D vectors and their mathematical model.

use vstd::prelude::*;
use crate::fx::{
    SCALE, tdiv, smul, absi, sqf, fmul, divn, isqrt, lemma_mul_range, lemma_smul_range,
    lemma_tdiv_bound, lemma_abs_mul, lemma_sqf,
};

verus! {

/// Mathematical value of a 2-D fixed-point vector.
pub ghost struct Gv2 {
    pub x: int,
    pub y: int,
}

/// A 2-D vector of fixed-point scalars (thousandths of a unit).
#[derive(Clone, Copy, PartialEq, Eq, Structural, Debug)]
pub struct V2 {
    pub x: i64,
    pub y: i64,
}

impl View for V2 {
    type V = Gv2;

    open spec fn view(&self) -> Gv2 {
        Gv2 { x: self.x as int, y: self.y as int }
    }
}

pub open spec fn gv(x: int, y: int) -> Gv2 {
    Gv2 { x, y }
}

pub open spec fn gv_add(a: Gv2, b: Gv2) -> Gv2 {
    gv(a.x + b.x, a.y + b.y)
}

pub open spec fn gv_sub(a: Gv2, b: Gv2) -> Gv2 {
    gv(a.x - b.x, a.y - b.y)
}

pub open spec fn gv_neg(a: Gv2) -> Gv2 {
    gv(-a.x, -a.y)
}

/// Componentwise fixed-point scaling by `s`.
pub open spec fn gv_scale(a: Gv2, s: int) -> Gv2 {
    gv(smul(a.x, s), smul(a.y, s))
}

/// Componentwise truncating division by a positive count.
pub open spec fn gv_divn(a: Gv2, n: int) -> Gv2 {
    gv(tdiv(a.x, n), tdiv(a.y, n))
}

/// Rotation by a quarter turn counter-clockwise.
pub open spec fn gv_perp(a: Gv2) -> Gv2 {
    gv(-a.y, a.x)
}

pub open spec fn gv_dot(a: Gv2, b: Gv2) -> int {
    a.x * b.x + a.y * b.y
}

pub open spec fn gv_sqlen(a: Gv2) -> int {
    a.x * a.x + a.y * a.y
}

/// Euclidean length, rounded down (in fixed-point units).
pub open spec fn gv_len(a: Gv2) -> int {
    sqf(gv_sqlen(a) as nat) as int
}

/// The unit vector along `a` (scaled by `SCALE`), or zero for zero `a`.
pub open spec fn gv_norz(a: Gv2) -> Gv2 {
    if gv_len(a) == 0 {
        gv(0, 0)
    } else {
        gv(tdiv(a.x * (SCALE as int), gv_len(a)), tdiv(a.y * (SCALE as int), gv_len(a)))
    }
}

/// Both components within `[-m, m]`.
pub open spec fn gv_in(a: Gv2, m: int) -> bool {
    -m <= a.x <= m && -m <= a.y <= m
}

/// A square is non-negative.
pub proof fn lemma_sq_nonneg(a: int)
    ensures
        a * a >= 0,
        a * a == absi(a) * absi(a),
{
    assert(a * a >= 0 && a * a == absi(a) * absi(a)) by (nonlinear_arith);
}

/// Each component is bounded by the vector's length.
pub proof fn lemma_comp_le_len(a: Gv2)
    ensures
        gv_len(a) >= 0,
        absi(a.x) <= gv_len(a),
        absi(a.y) <= gv_len(a),
{
    lemma_sq_nonneg(a.x);
    lemma_sq_nonneg(a.y);
    let n = gv_sqlen(a) as nat;
    lemma_sqf(n);
    let r = sqf(n);
    if absi(a.x) > r {
        assert((r + 1) * (r + 1) <= absi(a.x) * absi(a.x)) by (nonlinear_arith)
            requires
                absi(a.x) > r,
                r >= 0,
                absi(a.x) >= 0,
        ;
    }
    if absi(a.y) > r {
        assert((r + 1) * (r + 1) <= absi(a.y) * absi(a.y)) by (nonlinear_arith)
            requires
                absi(a.y) > r,
                r >= 0,
                absi(a.y) >= 0,
        ;
    }
}

/// A bound on both components gives a bound on the length.
pub proof fn lemma_len_bound(a: Gv2, m: int)
    requires
        gv_in(a, m),
        0 <= m,
    ensures
        0 <= gv_len(a) <= 2 * m,
{
    lemma_sq_nonneg(a.x);
    lemma_sq_nonneg(a.y);
    let n = gv_sqlen(a) as nat;
    lemma_sqf(n);
    let r = sqf(n);
    lemma_mul_range(a.x, a.x, m, m);
    lemma_mul_range(a.y, a.y, m, m);
    if r > 2 * m {
        assert((2 * m + 1) * (2 * m + 1) <= r * r) by (nonlinear_arith)
            requires
                r > 2 * m,
                m >= 0,
        ;
        assert(m * m + m * m < (2 * m + 1) * (2 * m + 1)) by (nonlinear_arith)
            requires
                m >= 0,
        ;
    }
}

/// The normalised vector has components of magnitude at most `SCALE`.
pub proof fn lemma_norz_bound(a: Gv2)
    ensures
        gv_in(gv_norz(a), 1000),
{
    lemma_comp_le_len(a);
    let len = gv_len(a);
    if len != 0 {
        lemma_tdiv_bound(a.x * 1000, len);
        lemma_tdiv_bound(a.y * 1000, len);
        lemma_abs_mul(a.x, 1000);
        lemma_abs_mul(a.y, 1000);
        let tx = tdiv(a.x * 1000, len);
        let ty = tdiv(a.y * 1000, len);
        assert(absi(tx) <= 1000) by (nonlinear_arith)
            requires
                absi(tx) * len <= absi(a.x) * 1000,
                absi(a.x) <= len,
                len > 0,
                absi(tx) >= 0,
        ;
        assert(absi(ty) <= 1000) by (nonlinear_arith)
            requires
                absi(ty) * len <= absi(a.y) * 1000,
                absi(a.y) <= len,
                len > 0,
                absi(ty) >= 0,
        ;
    }
}

/// Bounds for a componentwise fixed-point scaling, from bounds on the
/// operands.  With literal `aa` and `ss` the conclusions are linear.
pub proof fn lemma_scale_range(a: Gv2, s: int, aa: int, ss: int)
    requires
        gv_in(a, aa),
        -ss <= s <= ss,
        0 <= aa,
        0 <= ss,
    ensures
        -(aa * ss) <= a.x * s <= aa * ss,
        -(aa * ss) <= a.y * s <= aa * ss,
        -(aa * ss) <= 1000 * gv_scale(a, s).x <= aa * ss,
        -(aa * ss) <= 1000 * gv_scale(a, s).y <= aa * ss,
{
    lemma_smul_range(a.x, s, aa, ss);
    lemma_smul_range(a.y, s, aa, ss);
}

impl V2 {
    pub fn new(x: i64, y: i64) -> (r: V2)
        ensures
            r@ == gv(x as int, y as int),
    {
        V2 { x, y }
    }

    pub fn zero() -> (r: V2)
        ensures
            r@ == gv(0, 0),
    {
        V2 { x: 0, y: 0 }
    }

    pub fn plus(self, o: V2) -> (r: V2)
        requires
            gv_in(self@, 0x2000_0000_0000_0000),
            gv_in(o@, 0x2000_0000_0000_0000),
        ensures
            r@ == gv_add(self@, o@),
    {
        V2 { x: self.x + o.x, y: self.y + o.y }
    }

    pub fn minus(self, o: V2) -> (r: V2)
        requires
            gv_in(self@, 0x2000_0000_0000_0000),
            gv_in(o@, 0x2000_0000_0000_0000),
        ensures
            r@ == gv_sub(self@, o@),
    {
        V2 { x: self.x - o.x, y: self.y - o.y }
    }

    /// Componentwise fixed-point scaling by `s`.
    pub fn scale(self, s: i64) -> (r: V2)
        requires
            self.x != i64::MIN,
            self.y != i64::MIN,
            s != i64::MIN,
            -0x4000_0000_0000_0000 <= self@.x * s <= 0x4000_0000_0000_0000,
            -0x4000_0000_0000_0000 <= self@.y * s <= 0x4000_0000_0000_0000,
        ensures
            r@ == gv_scale(self@, s as int),
    {
        V2 { x: fmul(self.x, s), y: fmul(self.y, s) }
    }

    /// Componentwise truncating division by a positive count.
    pub fn div_count(self, n: u64) -> (r: V2)
        requires
            n > 0,
            self.x != i64::MIN,
            self.y != i64::MIN,
        ensures
            r@ == gv_divn(self@, n as int),
    {
        V2 { x: divn(self.x, n), y: divn(self.y, n) }
    }

    pub fn perp(self) -> (r: V2)
        requires
            self.x != i64::MIN,
            self.y != i64::MIN,
        ensures
            r@ == gv_perp(self@),
    {
        V2 { x: -self.y, y: self.x }
    }

    pub fn neg(self) -> (r: V2)
        requires
            self.x != i64::MIN,
            self.y != i64::MIN,
        ensures
            r@ == gv_neg(self@),
    {
        V2 { x: -self.x, y: -self.y }
    }

    /// Whether the dot product with `o` is strictly positive.
    pub fn dot_pos(self, o: V2) -> (r: bool)
        requires
            self.x != i64::MIN,
            self.y != i64::MIN,
        ensures
            r == (gv_dot(self@, o@) > 0),
    {
        proof {
            lemma_mul_range(self@.x, o@.x, 0x7FFF_FFFF_FFFF_FFFF, 0x8000_0000_0000_0000);
            lemma_mul_range(self@.y, o@.y, 0x7FFF_FFFF_FFFF_FFFF, 0x8000_0000_0000_0000);
        }
        let d: i128 = (self.x as i128) * (o.x as i128) + (self.y as i128) * (o.y as i128);
        d > 0
    }

    /// Squared Euclidean length, exact (in squared fixed-point units).
    pub fn sq_len(self) -> (r: u128)
        ensures
            r == gv_sqlen(self@),
    {
        proof {
            lemma_sq_nonneg(self@.x);
            lemma_sq_nonneg(self@.y);
            lemma_mul_range(self@.x, self@.x, 0x8000_0000_0000_0000, 0x8000_0000_0000_0000);
            lemma_mul_range(self@.y, self@.y, 0x8000_0000_0000_0000, 0x8000_0000_0000_0000);
        }
        let xx: i128 = (self.x as i128) * (self.x as i128);
        let yy: i128 = (self.y as i128) * (self.y as i128);
        (xx as u128) + (yy as u128)
    }

    /// Euclidean length, rounded down.
    pub fn length(self) -> (r: u64)
        ensures
            r == gv_len(self@),
    {
        isqrt(self.sq_len())
    }

    /// Euclidean length as a signed scalar, for vectors of bounded size.
    pub fn length_i(self) -> (r: i64)
        requires
            gv_in(self@, 0x4000_0000_0000),
        ensures
            r == gv_len(self@),
            0 <= r <= 0x8000_0000_0000,
    {
        proof {
            lemma_len_bound(self@, 0x4000_0000_0000);
        }
        self.length() as i64
    }

    /// The unit vector along `self` (scaled by `SCALE`), or zero.
    pub fn norm_or_zero(self) -> (r: V2)
        requires
            gv_in(self@, 0x4000_0000_0000),
        ensures
            r@ == gv_norz(self@),
            gv_in(r@, 1000),
    {
        proof {
            lemma_len_bound(self@, 0x4000_0000_0000);
            lemma_comp_le_len(self@);
            lemma_norz_bound(self@);
        }
        let len = self.length();
        if len == 0 {
            V2 { x: 0, y: 0 }
        } else {
            V2 { x: divn(self.x * 1000, len), y: divn(self.y * 1000, len) }
        }
    }
}

} // verus!
