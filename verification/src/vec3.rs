//! Three-component vectors over the fixed-point scalars: the value type for
//! points, directions and colors.

use vstd::prelude::*;
use crate::fixed::{
    Fx, fx, sadd, ssub, sneg, smul, sdiv, ssqrt, fmul_i, lemma_fmul_sq_nonneg,
    lemma_tdiv_nonneg, lemma_isqrt_exists, isqrt_i, SCALE, ONE,
};
use crate::util::{random_double, random_double_range};

verus! {

/// Components below this raw magnitude (2^-8 of a unit) count as zero for the
/// near-zero test: the square of anything smaller vanishes entirely in
/// fixed-point form.
pub const NEAR_ZERO_EPS: i64 = 256;

#[derive(Clone, Copy, PartialEq, Eq, Structural, Debug)]
pub struct Vec3 {
    pub x: Fx,
    pub y: Fx,
    pub z: Fx,
}

pub open spec fn v_add(a: Vec3, b: Vec3) -> Vec3 {
    Vec3 { x: sadd(a.x, b.x), y: sadd(a.y, b.y), z: sadd(a.z, b.z) }
}

pub open spec fn v_sub(a: Vec3, b: Vec3) -> Vec3 {
    Vec3 { x: ssub(a.x, b.x), y: ssub(a.y, b.y), z: ssub(a.z, b.z) }
}

pub open spec fn v_neg(a: Vec3) -> Vec3 {
    Vec3 { x: sneg(a.x), y: sneg(a.y), z: sneg(a.z) }
}

/// Scaling by a fixed-point scalar, component by component.
pub open spec fn v_scale(a: Vec3, s: Fx) -> Vec3 {
    Vec3 { x: smul(a.x, s), y: smul(a.y, s), z: smul(a.z, s) }
}

/// Division by a fixed-point scalar, component by component.
pub open spec fn v_div(a: Vec3, s: Fx) -> Vec3 {
    Vec3 { x: sdiv(a.x, s), y: sdiv(a.y, s), z: sdiv(a.z, s) }
}

/// The component-wise product, used for color attenuation.
pub open spec fn v_mul(a: Vec3, b: Vec3) -> Vec3 {
    Vec3 { x: smul(a.x, b.x), y: smul(a.y, b.y), z: smul(a.z, b.z) }
}

pub open spec fn dot_s(a: Vec3, b: Vec3) -> Fx {
    sadd(sadd(smul(a.x, b.x), smul(a.y, b.y)), smul(a.z, b.z))
}

pub open spec fn cross_s(a: Vec3, b: Vec3) -> Vec3 {
    Vec3 {
        x: ssub(smul(a.y, b.z), smul(a.z, b.y)),
        y: ssub(smul(a.z, b.x), smul(a.x, b.z)),
        z: ssub(smul(a.x, b.y), smul(a.y, b.x)),
    }
}

pub open spec fn l2_s(a: Vec3) -> Fx {
    dot_s(a, a)
}

pub open spec fn len_s(a: Vec3) -> Fx {
    ssqrt(l2_s(a))
}

/// All three components are below the near-zero threshold.
pub open spec fn near_zero_s(a: Vec3) -> bool {
    &&& -(NEAR_ZERO_EPS as int) < a.x.v < NEAR_ZERO_EPS as int
    &&& -(NEAR_ZERO_EPS as int) < a.y.v < NEAR_ZERO_EPS as int
    &&& -(NEAR_ZERO_EPS as int) < a.z.v < NEAR_ZERO_EPS as int
}

/// The normalized direction of `a`: each component divided by the fixed-point
/// length.  Total as a spec; meaningful when the length is positive.
pub open spec fn unit_s(a: Vec3) -> Vec3 {
    v_div(a, len_s(a))
}

/// The squared length of a vector is a sum of nonnegative squares.
pub proof fn lemma_l2_nonneg(a: Vec3)
    ensures
        l2_s(a).v >= 0,
{
    lemma_fmul_sq_nonneg(a.x.v as int);
    lemma_fmul_sq_nonneg(a.y.v as int);
    lemma_fmul_sq_nonneg(a.z.v as int);
}

/// A vector that is not near zero has a fixed-point squared length of at
/// least one raw step, so its length is positive.
pub proof fn lemma_not_near_zero_l2(a: Vec3)
    requires
        !near_zero_s(a),
    ensures
        l2_s(a).v >= 1,
        len_s(a).v >= 1,
{
    lemma_fmul_sq_nonneg(a.x.v as int);
    lemma_fmul_sq_nonneg(a.y.v as int);
    lemma_fmul_sq_nonneg(a.z.v as int);
    assert(abs_big_sq(a.x.v as int) || abs_big_sq(a.y.v as int) || abs_big_sq(a.z.v as int)) by {
        if a.x.v >= 256 || a.x.v <= -256 {
            lemma_big_sq(a.x.v as int);
        } else if a.y.v >= 256 || a.y.v <= -256 {
            lemma_big_sq(a.y.v as int);
        } else {
            lemma_big_sq(a.z.v as int);
        }
    }
    let l2 = l2_s(a).v as int;
    assert(l2 >= 1);
    let x = l2 * (SCALE as int);
    lemma_isqrt_exists(x);
    let r = isqrt_i(x);
    assert(x <= 0x7FFF_FFFF_FFFF_FFFF * 65536);
    assert(r < 0x8000_0000_0000_0000) by (nonlinear_arith)
        requires
            0 <= r,
            r * r <= 0x7FFF_FFFF_FFFF_FFFF * 65536,
    ;
    if r == 0 {
        assert(x < (r + 1) * (r + 1));
        assert((r + 1) * (r + 1) == 1) by (nonlinear_arith)
            requires r == 0;
        assert(false);
    }
    assert(len_s(a).v as int == r);
}

/// A component of magnitude at least the near-zero threshold contributes at
/// least one raw step to the squared length.
spec fn abs_big_sq(c: int) -> bool {
    fmul_i(c, c) >= 1
}

proof fn lemma_big_sq(c: int)
    requires
        c >= 256 || c <= -256,
    ensures
        fmul_i(c, c) >= 1,
{
    assert(c * c >= 65536) by (nonlinear_arith)
        requires c >= 256 || c <= -256;
    lemma_tdiv_nonneg(c * c, SCALE as int);
    vstd::arithmetic::div_mod::lemma_div_is_ordered(65536, c * c, SCALE as int);
}

pub fn dot(a: &Vec3, b: &Vec3) -> (r: Fx)
    ensures
        r == dot_s(*a, *b),
{
    a.x.mul(b.x).add(a.y.mul(b.y)).add(a.z.mul(b.z))
}

pub fn cross(a: &Vec3, b: &Vec3) -> (r: Vec3)
    ensures
        r == cross_s(*a, *b),
{
    Vec3 {
        x: a.y.mul(b.z).sub(a.z.mul(b.y)),
        y: a.z.mul(b.x).sub(a.x.mul(b.z)),
        z: a.x.mul(b.y).sub(a.y.mul(b.x)),
    }
}

impl Vec3 {
    pub fn add(&self, o: &Vec3) -> (r: Vec3)
        ensures
            r == v_add(*self, *o),
    {
        Vec3 { x: self.x.add(o.x), y: self.y.add(o.y), z: self.z.add(o.z) }
    }

    pub fn sub(&self, o: &Vec3) -> (r: Vec3)
        ensures
            r == v_sub(*self, *o),
    {
        Vec3 { x: self.x.sub(o.x), y: self.y.sub(o.y), z: self.z.sub(o.z) }
    }

    pub fn neg(&self) -> (r: Vec3)
        ensures
            r == v_neg(*self),
    {
        Vec3 { x: self.x.neg(), y: self.y.neg(), z: self.z.neg() }
    }

    pub fn scale(&self, s: Fx) -> (r: Vec3)
        ensures
            r == v_scale(*self, s),
    {
        Vec3 { x: self.x.mul(s), y: self.y.mul(s), z: self.z.mul(s) }
    }

    pub fn div_by(&self, s: Fx) -> (r: Vec3)
        requires
            s.v > 0,
        ensures
            r == v_div(*self, s),
    {
        Vec3 { x: self.x.div(s), y: self.y.div(s), z: self.z.div(s) }
    }

    /// The component-wise product, used for color attenuation.
    pub fn mul(&self, o: &Vec3) -> (r: Vec3)
        ensures
            r == v_mul(*self, *o),
    {
        Vec3 { x: self.x.mul(o.x), y: self.y.mul(o.y), z: self.z.mul(o.z) }
    }

    pub fn length_squared(&self) -> (r: Fx)
        ensures
            r == l2_s(*self),
            r.v >= 0,
    {
        proof {
            lemma_l2_nonneg(*self);
        }
        dot(self, self)
    }

    pub fn length(&self) -> (r: Fx)
        ensures
            r == len_s(*self),
            r.v >= 0,
    {
        self.length_squared().sqrt()
    }

    /// Whether every component is below the degenerate-direction threshold.
    pub fn near_zero(&self) -> (r: bool)
        ensures
            r == near_zero_s(*self),
    {
        -NEAR_ZERO_EPS < self.x.v && self.x.v < NEAR_ZERO_EPS
            && -NEAR_ZERO_EPS < self.y.v && self.y.v < NEAR_ZERO_EPS
            && -NEAR_ZERO_EPS < self.z.v && self.z.v < NEAR_ZERO_EPS
    }

    /// Normalization; callers must have ruled the near-zero case out.
    pub fn unit_vec(&self) -> (r: Vec3)
        requires
            !near_zero_s(*self),
        ensures
            r == unit_s(*self),
    {
        proof {
            lemma_not_near_zero_l2(*self);
        }
        let len = self.length();
        self.div_by(len)
    }

    /// A vector with three fresh uniform samples in `[0, 1)`.
    pub fn random() -> (r: Vec3)
        ensures
            0 <= r.x.v < ONE,
            0 <= r.y.v < ONE,
            0 <= r.z.v < ONE,
    {
        Vec3 { x: random_double(), y: random_double(), z: random_double() }
    }

    /// A vector with three fresh uniform samples in `[min, max]`.
    pub fn random_range(min: Fx, max: Fx) -> (r: Vec3)
        requires
            min.v <= max.v,
        ensures
            min.v <= r.x.v <= max.v,
            min.v <= r.y.v <= max.v,
            min.v <= r.z.v <= max.v,
            min.v < max.v ==> r.x.v < max.v && r.y.v < max.v && r.z.v < max.v,
    {
        Vec3 {
            x: random_double_range(min, max),
            y: random_double_range(min, max),
            z: random_double_range(min, max),
        }
    }

    /// A point inside the unit disk of the xy-plane, by rejection sampling;
    /// after too many rejections the center stands in, which is inside too.
    pub fn random_in_unit_disk() -> (r: Vec3)
        ensures
            l2_s(r).v < ONE,
            r.z.v == 0,
    {
        let mut tries: u32 = 0;
        while tries < 64
            invariant
                tries <= 64,
            decreases 64 - tries,
        {
            let p = Vec3 {
                x: random_double_range(Fx { v: -ONE }, Fx { v: ONE }),
                y: random_double_range(Fx { v: -ONE }, Fx { v: ONE }),
                z: Fx { v: 0 },
            };
            if p.length_squared().v < ONE {
                return p;
            }
            tries = tries + 1;
        }
        let center = Vec3 { x: Fx { v: 0 }, y: Fx { v: 0 }, z: Fx { v: 0 } };
        proof {
            lemma_zero_l2(center);
        }
        center
    }

    /// A point inside the unit ball, by rejection sampling; after too many
    /// rejections the center stands in, which is inside too.
    pub fn random_in_unit_sphere() -> (r: Vec3)
        ensures
            l2_s(r).v < ONE,
    {
        let mut tries: u32 = 0;
        while tries < 64
            invariant
                tries <= 64,
            decreases 64 - tries,
        {
            let p = Vec3 {
                x: random_double_range(Fx { v: -ONE }, Fx { v: ONE }),
                y: random_double_range(Fx { v: -ONE }, Fx { v: ONE }),
                z: random_double_range(Fx { v: -ONE }, Fx { v: ONE }),
            };
            if p.length_squared().v < ONE {
                return p;
            }
            tries = tries + 1;
        }
        let center = Vec3 { x: Fx { v: 0 }, y: Fx { v: 0 }, z: Fx { v: 0 } };
        proof {
            lemma_zero_l2(center);
        }
        center
    }

    /// A random direction of roughly unit length: the normalization of an
    /// admissible in-ball sample, or a fixed axis when sampling degenerates.
    pub fn random_unit_vector() -> (r: Vec3)
        ensures
            unit_sample_ok(r),
    {
        let mut tries: u32 = 0;
        while tries < 64
            invariant
                tries <= 64,
            decreases 64 - tries,
        {
            let p = Self::random_in_unit_sphere();
            if !p.near_zero() {
                let u = p.unit_vec();
                if !u.near_zero() {
                    proof {
                        assert(sphere_sample_ok(p) && u == unit_s(p));
                    }
                    return u;
                }
            }
            tries = tries + 1;
        }
        Vec3 { x: Fx { v: 0 }, y: Fx { v: 0 }, z: Fx { v: ONE } }
    }
}

/// The zero vector has zero squared length.
proof fn lemma_zero_l2(a: Vec3)
    requires
        a.x.v == 0,
        a.y.v == 0,
        a.z.v == 0,
    ensures
        l2_s(a).v == 0,
{
    lemma_tdiv_nonneg(0, SCALE as int);
}

/// The fallback direction for degenerate random sampling: the positive z
/// axis.
pub open spec fn unit_z() -> Vec3 {
    Vec3 { x: fx(0), y: fx(0), z: fx(ONE as int) }
}

/// `p` is a sample the in-ball sampler can produce that is also usable for
/// normalization.
pub open spec fn sphere_sample_ok(p: Vec3) -> bool {
    l2_s(p).v < ONE && !near_zero_s(p)
}

/// What the random unit-vector sampler can return: the normalization of some
/// admissible in-ball sample, or the fixed fallback axis; never near zero.
pub open spec fn unit_sample_ok(v: Vec3) -> bool {
    !near_zero_s(v) && ((exists|p: Vec3|
        sphere_sample_ok(p) && v == #[trigger] unit_s(p)) || v == unit_z())
}

} // verus!
