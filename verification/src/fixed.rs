//! Signed fixed-point numbers: the scalar type every geometric and radiometric
//! quantity of this crate is made of.
//!
//! A value `Fx { v }` stands for the real number `v / SCALE`.  Addition and
//! subtraction are exact up to saturation at the `i64` range; multiplication
//! and division truncate the result toward zero at the last binary digit, as
//! the spec functions below state exactly.

use vstd::prelude::*;

verus! {

/// Number of fractional steps per unit: an `Fx` with raw value `v` stands for
/// the real number `v / SCALE`.
pub const SCALE: i64 = 65536;

/// The fixed-point representation of 1.
pub const ONE: i64 = 65536;

/// The fixed-point representation of 2.
pub const TWO: i64 = 131072;

/// The fixed-point representation of 1/2.
pub const HALF: i64 = 32768;

/// A real number in signed fixed-point form.
#[derive(Clone, Copy, PartialEq, Eq, Structural, Debug)]
pub struct Fx {
    pub v: i64,
}

/// Clamp an unbounded integer into the `i64` range.
pub open spec fn sat_i(x: int) -> int {
    if x > i64::MAX as int {
        i64::MAX as int
    } else if x < i64::MIN as int {
        i64::MIN as int
    } else {
        x
    }
}

pub open spec fn abs_i(x: int) -> int {
    if x >= 0 {
        x
    } else {
        -x
    }
}

/// Integer division truncating toward zero, as Rust's `/` behaves; defined as
/// 0 on a zero divisor so that it is total.
pub open spec fn tdiv_i(p: int, q: int) -> int {
    if q == 0 {
        0
    } else if (p >= 0) == (q >= 0) {
        abs_i(p) / abs_i(q)
    } else {
        -(abs_i(p) / abs_i(q))
    }
}

/// What fixed-point addition returns, on raw values.
pub open spec fn fadd_i(a: int, b: int) -> int {
    sat_i(a + b)
}

/// What fixed-point subtraction returns, on raw values.
pub open spec fn fsub_i(a: int, b: int) -> int {
    sat_i(a - b)
}

/// What fixed-point negation returns, on raw values.
pub open spec fn fneg_i(a: int) -> int {
    sat_i(-a)
}

/// What fixed-point multiplication returns, on raw values: the exact product
/// rescaled by `SCALE`, truncated toward zero.
pub open spec fn fmul_i(a: int, b: int) -> int {
    sat_i(tdiv_i(a * b, SCALE as int))
}

/// What fixed-point division returns, on raw values: the exact quotient
/// rescaled by `SCALE`, truncated toward zero.
pub open spec fn fdiv_i(a: int, b: int) -> int {
    sat_i(tdiv_i(a * (SCALE as int), b))
}

/// `r` is the integer square root of `x`.
pub open spec fn is_isqrt(x: int, r: int) -> bool {
    0 <= r && r * r <= x && x < (r + 1) * (r + 1)
}

/// The nonnegative integer square root: the unique `r >= 0` with
/// `r * r <= x < (r + 1) * (r + 1)`.
pub open spec fn isqrt_i(x: int) -> int {
    choose|r: int| is_isqrt(x, r)
}

/// What the fixed-point square root returns, on raw values: since `x` stands
/// for `x / SCALE`, its root is `sqrt(x * SCALE) / SCALE`.
pub open spec fn fsqrt_i(x: int) -> int {
    isqrt_i(x * (SCALE as int))
}

/// Build an `Fx` from a raw value known to fit in `i64`.
pub open spec fn fx(v: int) -> Fx {
    Fx { v: v as i64 }
}

/// `Fx`-level mirrors of the raw-value operations: what each executable
/// arithmetic method returns.
pub open spec fn sadd(a: Fx, b: Fx) -> Fx {
    fx(fadd_i(a.v as int, b.v as int))
}

pub open spec fn ssub(a: Fx, b: Fx) -> Fx {
    fx(fsub_i(a.v as int, b.v as int))
}

pub open spec fn sneg(a: Fx) -> Fx {
    fx(fneg_i(a.v as int))
}

pub open spec fn smul(a: Fx, b: Fx) -> Fx {
    fx(fmul_i(a.v as int, b.v as int))
}

pub open spec fn sdiv(a: Fx, b: Fx) -> Fx {
    fx(fdiv_i(a.v as int, b.v as int))
}

pub open spec fn ssqrt(a: Fx) -> Fx {
    fx(fsqrt_i(a.v as int))
}

/// The clamp of `x` into `[min, max]`, testing the lower bound first as the
/// executable `clamp` does.
pub open spec fn sclamp(x: Fx, min: Fx, max: Fx) -> Fx {
    if x.v < min.v {
        min
    } else if x.v > max.v {
        max
    } else {
        x
    }
}

/// For every nonnegative `x` an integer square root exists, so `isqrt_i(x)`
/// is it.
pub proof fn lemma_isqrt_exists(x: int)
    requires
        x >= 0,
    ensures
        is_isqrt(x, isqrt_i(x)),
    decreases x,
{
    if x == 0 {
        assert(is_isqrt(0, 0));
    } else {
        lemma_isqrt_exists(x - 1);
        let r = isqrt_i(x - 1);
        if (r + 1) * (r + 1) <= x {
            assert(x == (r + 1) * (r + 1));
            assert(x < (r + 2) * (r + 2)) by (nonlinear_arith)
                requires x == (r + 1) * (r + 1), r >= 0;
            assert(is_isqrt(x, r + 1));
        } else {
            assert(is_isqrt(x, r));
        }
    }
}

/// Truncating division agrees with Euclidean division on nonnegative
/// operands, and keeps their sign.
pub proof fn lemma_tdiv_nonneg(p: int, q: int)
    requires
        p >= 0,
        q > 0,
    ensures
        tdiv_i(p, q) == p / q,
        0 <= tdiv_i(p, q) <= p,
{
    vstd::arithmetic::div_mod::lemma_div_pos_is_pos(p, q);
    vstd::arithmetic::div_mod::lemma_div_nonincreasing(p, q);
}

/// The product of two nonnegative factors, one of them at most 1, is
/// nonnegative and no greater than the other factor.
pub proof fn lemma_fmul_unit_bound(a: int, b: int)
    requires
        0 <= a,
        0 <= b <= SCALE as int,
    ensures
        0 <= fmul_i(a, b) <= a,
{
    assert(0 <= a * b <= a * (SCALE as int)) by (nonlinear_arith)
        requires 0 <= a, 0 <= b <= 65536;
    lemma_tdiv_nonneg(a * b, SCALE as int);
    vstd::arithmetic::div_mod::lemma_div_is_ordered(a * b, a * (SCALE as int), SCALE as int);
    vstd::arithmetic::div_mod::lemma_div_by_multiple(a, SCALE as int);
}

/// The product with a factor strictly below 1 stays strictly below a
/// positive other factor.
pub proof fn lemma_fmul_frac_strict(a: int, b: int)
    requires
        1 <= a,
        0 <= b < SCALE as int,
    ensures
        fmul_i(a, b) < a,
{
    let s = SCALE as int;
    assert(a * b <= a * s - a) by (nonlinear_arith)
        requires 1 <= a, 0 <= b <= s - 1, s == 65536;
    lemma_tdiv_nonneg(a * b, s);
    vstd::arithmetic::div_mod::lemma_div_is_ordered(a * b, a * s - a, s);
    assert((a * s - a) / s <= a - 1) by {
        vstd::arithmetic::div_mod::lemma_fundamental_div_mod(a * s - a, s);
        vstd::arithmetic::div_mod::lemma_mod_division_less_than_divisor(a * s - a, s);
        let q = (a * s - a) / s;
        if q > a - 1 {
            assert(q * s >= a * s) by (nonlinear_arith)
                requires q >= a, s == 65536;
        }
    }
}

/// Multiplying by the fixed-point 1 is exact.
pub proof fn lemma_fmul_one(a: int)
    requires
        i64::MIN <= a <= i64::MAX,
    ensures
        fmul_i(ONE as int, a) == a,
        fmul_i(a, ONE as int) == a,
{
    let s = SCALE as int;
    if a >= 0 {
        vstd::arithmetic::div_mod::lemma_div_by_multiple(a, s);
        assert(a * s == s * a) by (nonlinear_arith);
    } else {
        vstd::arithmetic::div_mod::lemma_div_by_multiple(-a, s);
        assert(abs_i(a * s) == (-a) * s && abs_i(s * a) == (-a) * s) by (nonlinear_arith)
            requires a < 0, s == 65536;
    }
}

/// Multiplying by the fixed-point -1 is exact negation.
pub proof fn lemma_fmul_neg_one(a: int)
    requires
        -(i64::MAX as int) <= a <= i64::MAX as int,
    ensures
        fmul_i(a, -(ONE as int)) == -a,
{
    let s = SCALE as int;
    vstd::arithmetic::div_mod::lemma_div_by_multiple(abs_i(a), s);
    if a >= 0 {
        assert(a * (-s) == -(a * s) && abs_i(a * (-s)) == a * s) by (nonlinear_arith)
            requires a >= 0, s == 65536;
    } else {
        assert(a * (-s) == (-a) * s && (-a) * s >= 0) by (nonlinear_arith)
            requires a < 0, s == 65536;
    }
}

/// The square root of the fixed-point 1 is 1.
pub proof fn lemma_fsqrt_one()
    ensures
        fsqrt_i(ONE as int) == ONE as int,
{
    assert(is_isqrt(65536int * 65536, 65536)) by (nonlinear_arith);
    lemma_isqrt_exists(65536int * 65536);
    lemma_isqrt_unique(65536int * 65536, 65536int, isqrt_i(65536int * 65536));
}

/// Dividing the fixed-point 1 by itself gives 1.
pub proof fn lemma_fdiv_one_one()
    ensures
        fdiv_i(ONE as int, ONE as int) == ONE as int,
{
    let s = SCALE as int;
    vstd::arithmetic::div_mod::lemma_div_by_multiple(s, s);
}

/// A fixed-point square root of a value at most 1 is at most 1.
pub proof fn lemma_fsqrt_le_one(x: int)
    requires
        0 <= x <= ONE as int,
    ensures
        0 <= fsqrt_i(x) <= ONE as int,
{
    lemma_isqrt_exists(x * (SCALE as int));
    let r = isqrt_i(x * (SCALE as int));
    assert(x * (SCALE as int) <= 65536int * 65536);
    if r > 65536 {
        assert(r * r > 65536int * 65536) by (nonlinear_arith)
            requires r > 65536int;
    }
}

/// Multiplying by zero gives zero.
pub proof fn lemma_fmul_zero(a: int)
    ensures
        fmul_i(a, 0) == 0,
        fmul_i(0, a) == 0,
{
    assert(a * 0 == 0 && 0 * a == 0) by (nonlinear_arith);
    lemma_tdiv_nonneg(0, SCALE as int);
}

/// The square of a value of magnitude at most 1 lies in `[0, 1]`.
pub proof fn lemma_fmul_sq_le_one(a: int)
    requires
        -(ONE as int) <= a <= ONE as int,
    ensures
        0 <= fmul_i(a, a) <= ONE as int,
{
    let s = SCALE as int;
    assert(0 <= a * a <= s * s) by (nonlinear_arith)
        requires -65536 <= a <= 65536, s == 65536;
    lemma_tdiv_nonneg(a * a, s);
    vstd::arithmetic::div_mod::lemma_div_is_ordered(a * a, s * s, s);
    vstd::arithmetic::div_mod::lemma_div_by_multiple(s, s);
}

/// Fixed-point multiplication is monotone in a nonnegative factor.
pub proof fn lemma_fmul_mono(a1: int, a2: int, b: int)
    requires
        0 <= a1 <= a2,
        0 <= b,
    ensures
        0 <= fmul_i(a1, b) <= fmul_i(a2, b),
{
    assert(0 <= a1 * b <= a2 * b) by (nonlinear_arith)
        requires 0 <= a1 <= a2, 0 <= b;
    lemma_tdiv_nonneg(a1 * b, SCALE as int);
    lemma_tdiv_nonneg(a2 * b, SCALE as int);
    vstd::arithmetic::div_mod::lemma_div_is_ordered(a1 * b, a2 * b, SCALE as int);
}

/// Rescaling by `SCALE` loses less than one raw step: the scaled quotient
/// lies within one `SCALE` of the exact product.
pub proof fn lemma_tdiv_scale_err(p: int)
    ensures
        p - SCALE < SCALE * tdiv_i(p, SCALE as int) <= p || p <= SCALE * tdiv_i(p, SCALE as int) < p + SCALE,
        p >= 0 ==> p - SCALE < SCALE * tdiv_i(p, SCALE as int) <= p,
        p < 0 ==> p <= SCALE * tdiv_i(p, SCALE as int) < p + SCALE,
{
    let s = SCALE as int;
    if p >= 0 {
        vstd::arithmetic::div_mod::lemma_fundamental_div_mod(p, s);
        vstd::arithmetic::div_mod::lemma_mod_division_less_than_divisor(p, s);
    } else {
        vstd::arithmetic::div_mod::lemma_fundamental_div_mod(-p, s);
        vstd::arithmetic::div_mod::lemma_mod_division_less_than_divisor(-p, s);
    }
}

/// Fixed-point multiplication of moderately sized factors never saturates,
/// and its result is within one raw step of the exact rescaled product.
pub proof fn lemma_fmul_small(a: int, b: int)
    requires
        -0x100_0000 <= a <= 0x100_0000,
        -0x100_0000 <= b <= 0x100_0000,
    ensures
        a * b - SCALE < SCALE * fmul_i(a, b) <= a * b || a * b <= SCALE * fmul_i(a, b) < a * b + SCALE,
        a * b - SCALE < SCALE * fmul_i(a, b) < a * b + SCALE,
{
    assert(-0x1_0000_0000_0000 <= a * b <= 0x1_0000_0000_0000) by (nonlinear_arith)
        requires -0x100_0000 <= a <= 0x100_0000, -0x100_0000 <= b <= 0x100_0000;
    lemma_tdiv_scale_err(a * b);
}

/// Multiplying by the fixed-point 2 doubles exactly.
pub proof fn lemma_fmul_two(a: int)
    requires
        -0x2000_0000_0000_0000 <= a <= 0x2000_0000_0000_0000,
    ensures
        fmul_i(a, TWO as int) == 2 * a,
{
    let s = SCALE as int;
    vstd::arithmetic::div_mod::lemma_div_by_multiple(abs_i(2 * a), s);
    if a >= 0 {
        assert(a * (2 * s) == (2 * a) * s) by (nonlinear_arith);
    } else {
        assert(abs_i(a * (2 * s)) == (-(2 * a)) * s) by (nonlinear_arith)
            requires a < 0, s == 65536;
        assert(abs_i(2 * a) == -(2 * a));
    }
}

/// A square is nonnegative, and so is its rescaled fixed-point form.
pub proof fn lemma_fmul_sq_nonneg(a: int)
    ensures
        fmul_i(a, a) >= 0,
{
    assert(a * a >= 0) by (nonlinear_arith);
    lemma_tdiv_nonneg(a * a, SCALE as int);
}

/// The integer square root is unique.
pub proof fn lemma_isqrt_unique(x: int, r1: int, r2: int)
    requires
        0 <= r1,
        r1 * r1 <= x < (r1 + 1) * (r1 + 1),
        0 <= r2,
        r2 * r2 <= x < (r2 + 1) * (r2 + 1),
    ensures
        r1 == r2,
{
    if r1 < r2 {
        assert((r1 + 1) * (r1 + 1) <= r2 * r2) by (nonlinear_arith)
            requires 0 <= r1, 0 <= r2, r1 < r2;
    }
    if r2 < r1 {
        assert((r2 + 1) * (r2 + 1) <= r1 * r1) by (nonlinear_arith)
            requires 0 <= r1, 0 <= r2, r2 < r1;
    }
}

/// Clamp an `i128` intermediate into the `i64` range.
fn sat64(x: i128) -> (r: i64)
    ensures
        r as int == sat_i(x as int),
{
    if x > i64::MAX as i128 {
        i64::MAX
    } else if x < i64::MIN as i128 {
        i64::MIN
    } else {
        x as i64
    }
}

/// Division of `i128` values truncating toward zero, through unsigned
/// division on the magnitudes.
fn tdiv128(p: i128, q: i128) -> (r: i128)
    requires
        q > 0,
        p > i128::MIN,
    ensures
        r as int == tdiv_i(p as int, q as int),
{
    if p >= 0 {
        let m: u128 = (p as u128) / (q as u128);
        m as i128
    } else {
        let m: u128 = ((-p) as u128) / (q as u128);
        assert(m <= (-p) as u128) by {
            assert((-p) as u128 / (q as u128) <= (-p) as u128);
        }
        -(m as i128)
    }
}

impl Fx {
    pub fn add(self, o: Fx) -> (r: Fx)
        ensures
            r == sadd(self, o),
            r.v as int == fadd_i(self.v as int, o.v as int),
    {
        Fx { v: sat64(self.v as i128 + o.v as i128) }
    }

    pub fn sub(self, o: Fx) -> (r: Fx)
        ensures
            r == ssub(self, o),
            r.v as int == fsub_i(self.v as int, o.v as int),
    {
        Fx { v: sat64(self.v as i128 - o.v as i128) }
    }

    pub fn neg(self) -> (r: Fx)
        ensures
            r == sneg(self),
            r.v as int == fneg_i(self.v as int),
    {
        Fx { v: sat64(-(self.v as i128)) }
    }

    pub fn mul(self, o: Fx) -> (r: Fx)
        ensures
            r == smul(self, o),
            r.v as int == fmul_i(self.v as int, o.v as int),
    {
        proof {
            assert(i128::MIN < (self.v as int) * (o.v as int) < i128::MAX) by (nonlinear_arith)
                requires
                    -0x8000_0000_0000_0000 <= self.v as int <= 0x7FFF_FFFF_FFFF_FFFF,
                    -0x8000_0000_0000_0000 <= o.v as int <= 0x7FFF_FFFF_FFFF_FFFF,
            ;
        }
        let p: i128 = (self.v as i128) * (o.v as i128);
        Fx { v: sat64(tdiv128(p, SCALE as i128)) }
    }

    pub fn div(self, o: Fx) -> (r: Fx)
        requires
            o.v > 0,
        ensures
            r == sdiv(self, o),
            r.v as int == fdiv_i(self.v as int, o.v as int),
    {
        let p: i128 = (self.v as i128) * (SCALE as i128);
        proof {
            assert(p > i128::MIN) by (nonlinear_arith)
                requires
                    p == (self.v as int) * 65536,
                    -0x8000_0000_0000_0000 <= self.v as int <= 0x7FFF_FFFF_FFFF_FFFF,
            ;
        }
        Fx { v: sat64(tdiv128(p, o.v as i128)) }
    }

    /// The fixed-point square root of a nonnegative value.
    pub fn sqrt(self) -> (r: Fx)
        requires
            self.v >= 0,
        ensures
            r == ssqrt(self),
            r.v as int == fsqrt_i(self.v as int),
            r.v >= 0,
    {
        let x: u128 = (self.v as u128) * 65536;
        let y: u128 = isqrt_u(x);
        proof {
            assert(y * y <= x);
            assert(x <= 0x7FFF_FFFF_FFFF_FFFFu128 * 0x10000);
            assert((y as int) * (y as int) <= 0x8000_0000_0000_0000i128 * 0x10000);
            assert(y < 0x10_0000_0000_0000) by (nonlinear_arith)
                requires
                    (y as int) * (y as int) <= 0x8000_0000_0000_0000i128 * 0x10000,
            ;
            assert(is_isqrt(x as int, y as int));
            lemma_isqrt_unique(x as int, y as int, isqrt_i(x as int));
        }
        Fx { v: y as i64 }
    }
}

/// The integer square root of a `u128`, by binary search.
fn isqrt_u(x: u128) -> (r: u128)
    ensures
        r * r <= x < (r + 1) * (r + 1),
{
    let mut lo: u128 = 0;
    let mut hi: u128 = 0xFFFF_FFFF_FFFF_FFFF;
    proof {
        assert(x < (hi + 1) * (hi + 1)) by (nonlinear_arith)
            requires
                hi == 0xFFFF_FFFF_FFFF_FFFFu128,
                x <= u128::MAX,
        ;
    }
    while lo < hi
        invariant
            lo <= hi,
            hi <= 0xFFFF_FFFF_FFFF_FFFF,
            lo * lo <= x,
            x < (hi + 1) * (hi + 1),
        decreases hi - lo,
    {
        let mid: u128 = lo + (hi - lo + 1) / 2;
        proof {
            assert(mid * mid <= 0xFFFF_FFFF_FFFF_FFFF * 0xFFFF_FFFF_FFFF_FFFF) by (nonlinear_arith)
                requires mid <= 0xFFFF_FFFF_FFFF_FFFFu128;
        }
        if mid * mid <= x {
            lo = mid;
        } else {
            hi = mid - 1;
        }
    }
    lo
}

} // verus!
