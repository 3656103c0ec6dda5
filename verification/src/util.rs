//! Scalar helpers: the uniform random source, clamping, reflection,
//! refraction and Schlick's reflectance.

use vstd::prelude::*;
use crate::fixed::{
    Fx, fx, sadd, ssub, sneg, smul, sdiv, ssqrt, sclamp, abs_i, fmul_i,
    lemma_fmul_small, lemma_fmul_two, lemma_fmul_unit_bound, lemma_tdiv_scale_err,
    SCALE, ONE, TWO,
};
use crate::vec3::{Vec3, dot, dot_s, v_add, v_sub, v_neg, v_scale, l2_s};

verus! {

/// The fixed-point value of pi.
pub const PI_FX: i64 = 205887;

/// The fixed-point value of 180.
pub const DEG_HALF_TURN: i64 = 11796480;

/// Relies on `fastrand::u64` with the range `0..65536`: the thread-local
/// generator returns a uniform value below the bound.
#[verifier::external_body]
fn rand_step() -> (r: u64)
    ensures
        r < 65536,
{
    fastrand::u64(0..65536)
}

/// A uniform fixed-point sample in `[0, 1)`.
pub fn random_double() -> (r: Fx)
    ensures
        0 <= r.v < ONE,
{
    let raw = rand_step();
    Fx { v: raw as i64 }
}

/// A uniform fixed-point sample in `[min, max]`, as `min + (max - min) * u`
/// for a fresh `u` in `[0, 1)`.
pub fn random_double_range(min: Fx, max: Fx) -> (r: Fx)
    requires
        min.v <= max.v,
    ensures
        min.v <= r.v <= max.v,
        min.v < max.v ==> r.v < max.v,
        exists|u: Fx| 0 <= u.v < ONE && r == sadd(min, smul(ssub(max, min), u)),
{
    let u = random_double();
    let d = max.sub(min);
    let e = d.mul(u);
    proof {
        lemma_fmul_unit_bound(d.v as int, u.v as int);
        if min.v < max.v {
            crate::fixed::lemma_fmul_frac_strict(d.v as int, u.v as int);
        }
    }
    let r = min.add(e);
    proof {
        assert(0 <= u.v < ONE && r == sadd(min, smul(ssub(max, min), u)));
    }
    r
}

/// The clamp of `x` into `[min, max]`.
pub fn clamp(x: Fx, min: Fx, max: Fx) -> (r: Fx)
    ensures
        r == sclamp(x, min, max),
{
    if x.v < min.v {
        return min;
    }
    if x.v > max.v {
        return max;
    }
    x
}

/// The mirror reflection of `v` about the normal `n`:
/// `v - n * dot(v, n) * 2`.
pub open spec fn reflect_s(v: Vec3, n: Vec3) -> Vec3 {
    v_sub(v, v_scale(v_scale(n, dot_s(v, n)), fx(TWO as int)))
}

pub fn reflect(v: &Vec3, n: &Vec3) -> (r: Vec3)
    ensures
        r == reflect_s(*v, *n),
{
    let d = dot(v, n);
    v.sub(&n.scale(d).scale(Fx { v: TWO }))
}

/// Reflection preserves the magnitude of the normal component of the
/// incoming direction and flips its sign: for a unit normal and a unit-sized
/// incoming vector, `dot(reflect(v, n), n)` equals `-dot(v, n)` up to the
/// rounding slack of the fixed-point model (a handful of raw steps, each
/// 1/65536 of a unit).
#[verifier::rlimit(30)]
pub proof fn lemma_reflect_preserves_normal_component(v: Vec3, n: Vec3)
    requires
        dot_s(n, n) == fx(ONE as int),
        -ONE <= v.x.v <= ONE,
        -ONE <= v.y.v <= ONE,
        -ONE <= v.z.v <= ONE,
        -ONE <= n.x.v <= ONE,
        -ONE <= n.y.v <= ONE,
        -ONE <= n.z.v <= ONE,
    ensures
        abs_i(dot_s(reflect_s(v, n), n).v + dot_s(v, n).v) < 32,
{
    let s = SCALE as int;
    let vx = v.x.v as int;
    let vy = v.y.v as int;
    let vz = v.z.v as int;
    let nx = n.x.v as int;
    let ny = n.y.v as int;
    let nz = n.z.v as int;

    // The dot product of v and n, and its distance from the exact one.
    let t1 = fmul_i(vx, nx);
    let t2 = fmul_i(vy, ny);
    let t3 = fmul_i(vz, nz);
    lemma_fmul_small(vx, nx);
    lemma_fmul_small(vy, ny);
    lemma_fmul_small(vz, nz);
    assert(-(s * s) <= vx * nx <= s * s) by (nonlinear_arith)
        requires -65536 <= vx <= 65536, -65536 <= nx <= 65536, s == 65536;
    assert(-(s * s) <= vy * ny <= s * s) by (nonlinear_arith)
        requires -65536 <= vy <= 65536, -65536 <= ny <= 65536, s == 65536;
    assert(-(s * s) <= vz * nz <= s * s) by (nonlinear_arith)
        requires -65536 <= vz <= 65536, -65536 <= nz <= 65536, s == 65536;
    assert(-s <= t1 <= s && -s <= t2 <= s && -s <= t3 <= s);
    let d = dot_s(v, n).v as int;
    assert(d == t1 + t2 + t3);
    let ee = vx * nx + vy * ny + vz * nz;
    assert(ee - 3 * s < s * d < ee + 3 * s);
    assert(-3 * s <= d <= 3 * s);

    // The premise pins the squared length of n within rounding of one.
    let w1 = fmul_i(nx, nx);
    let w2 = fmul_i(ny, ny);
    let w3 = fmul_i(nz, nz);
    lemma_fmul_small(nx, nx);
    lemma_fmul_small(ny, ny);
    lemma_fmul_small(nz, nz);
    assert(0 <= nx * nx && 0 <= ny * ny && 0 <= nz * nz) by (nonlinear_arith);
    lemma_tdiv_scale_err(nx * nx);
    lemma_tdiv_scale_err(ny * ny);
    lemma_tdiv_scale_err(nz * nz);
    assert(nx * nx - s < s * w1 <= nx * nx);
    assert(ny * ny - s < s * w2 <= ny * ny);
    assert(nz * nz - s < s * w3 <= nz * nz);
    assert(w1 + w2 + w3 == s);
    let nn = nx * nx + ny * ny + nz * nz;
    assert(nn - 3 * s < s * s <= nn);

    // The doubled projection onto the normal, and the reflected vector.
    let m1 = fmul_i(nx, d);
    let m2 = fmul_i(ny, d);
    let m3 = fmul_i(nz, d);
    lemma_fmul_small(nx, d);
    lemma_fmul_small(ny, d);
    lemma_fmul_small(nz, d);
    let d1 = s * m1 - nx * d;
    let d2 = s * m2 - ny * d;
    let d3 = s * m3 - nz * d;
    assert(-(3 * s * s) <= nx * d <= 3 * s * s) by (nonlinear_arith)
        requires -65536 <= nx <= 65536, -3 * 65536 <= d <= 3 * 65536, s == 65536;
    assert(-(3 * s * s) <= ny * d <= 3 * s * s) by (nonlinear_arith)
        requires -65536 <= ny <= 65536, -3 * 65536 <= d <= 3 * 65536, s == 65536;
    assert(-(3 * s * s) <= nz * d <= 3 * s * s) by (nonlinear_arith)
        requires -65536 <= nz <= 65536, -3 * 65536 <= d <= 3 * 65536, s == 65536;
    assert(-(3 * s) <= m1 <= 3 * s && -(3 * s) <= m2 <= 3 * s && -(3 * s) <= m3 <= 3 * s);
    assert(-s < d1 < s && -s < d2 < s && -s < d3 < s);
    lemma_fmul_two(m1);
    lemma_fmul_two(m2);
    lemma_fmul_two(m3);
    let r1 = vx - 2 * m1;
    let r2 = vy - 2 * m2;
    let r3 = vz - 2 * m3;
    assert(reflect_s(v, n).x.v == r1);
    assert(reflect_s(v, n).y.v == r2);
    assert(reflect_s(v, n).z.v == r3);
    assert(-(7 * s) <= r1 <= 7 * s && -(7 * s) <= r2 <= 7 * s && -(7 * s) <= r3 <= 7 * s);

    // The dot product of the reflection with n, and its distance from the
    // exact one.
    let u1 = fmul_i(r1, nx);
    let u2 = fmul_i(r2, ny);
    let u3 = fmul_i(r3, nz);
    lemma_fmul_small(r1, nx);
    lemma_fmul_small(r2, ny);
    lemma_fmul_small(r3, nz);
    assert(-(7 * s * s) <= r1 * nx <= 7 * s * s) by (nonlinear_arith)
        requires -(7 * 65536) <= r1 <= 7 * 65536, -65536 <= nx <= 65536, s == 65536;
    assert(-(7 * s * s) <= r2 * ny <= 7 * s * s) by (nonlinear_arith)
        requires -(7 * 65536) <= r2 <= 7 * 65536, -65536 <= ny <= 65536, s == 65536;
    assert(-(7 * s * s) <= r3 * nz <= 7 * s * s) by (nonlinear_arith)
        requires -(7 * 65536) <= r3 <= 7 * 65536, -65536 <= nz <= 65536, s == 65536;
    assert(-(7 * s) <= u1 <= 7 * s && -(7 * s) <= u2 <= 7 * s && -(7 * s) <= u3 <= 7 * s);
    let dotr = dot_s(reflect_s(v, n), n).v as int;
    assert(dotr == u1 + u2 + u3);
    let rr = r1 * nx + r2 * ny + r3 * nz;
    assert(rr - 3 * s < s * dotr < rr + 3 * s);

    // rr expands to the exact dot minus twice the projection sum.
    let mm = m1 * nx + m2 * ny + m3 * nz;
    assert(r1 * nx == vx * nx - 2 * (m1 * nx)) by (nonlinear_arith)
        requires r1 == vx - 2 * m1;
    assert(r2 * ny == vy * ny - 2 * (m2 * ny)) by (nonlinear_arith)
        requires r2 == vy - 2 * m2;
    assert(r3 * nz == vz * nz - 2 * (m3 * nz)) by (nonlinear_arith)
        requires r3 == vz - 2 * m3;
    assert(rr == ee - 2 * mm);

    // The projection sum is nn * d up to rounding.
    assert(s * (m1 * nx) == (nx * nx) * d + d1 * nx) by (nonlinear_arith)
        requires s * m1 == nx * d + d1;
    assert(s * (m2 * ny) == (ny * ny) * d + d2 * ny) by (nonlinear_arith)
        requires s * m2 == ny * d + d2;
    assert(s * (m3 * nz) == (nz * nz) * d + d3 * nz) by (nonlinear_arith)
        requires s * m3 == nz * d + d3;
    assert(-(s * s) < d1 * nx < s * s) by (nonlinear_arith)
        requires -65536 < d1 < 65536, -65536 <= nx <= 65536, s == 65536;
    assert(-(s * s) < d2 * ny < s * s) by (nonlinear_arith)
        requires -65536 < d2 < 65536, -65536 <= ny <= 65536, s == 65536;
    assert(-(s * s) < d3 * nz < s * s) by (nonlinear_arith)
        requires -65536 < d3 < 65536, -65536 <= nz <= 65536, s == 65536;
    assert(nx * nx * d + ny * ny * d + nz * nz * d == nn * d) by (nonlinear_arith)
        requires nn == nx * nx + ny * ny + nz * nz;
    assert(nn * d - 3 * (s * s) < s * mm < nn * d + 3 * (s * s));

    // Put the pieces together: s^2 * (dotr + d) collapses to rounding terms.
    assert(d * (s * s - nn) == s * s * d - nn * d) by (nonlinear_arith);
    assert(-(3 * s) < s * s - nn <= 0);
    assert(-(10 * (s * s)) <= d * (s * s - nn) <= 10 * (s * s)) by (nonlinear_arith)
        requires -(3 * 65536) <= d <= 3 * 65536, -(3 * 65536) < s * s - nn <= 0, s == 65536;
    // s * rr within 2 * (nn * d) and rounding:
    assert(s * rr == s * ee - 2 * (s * mm));
    assert(s * ee - s * s * d == s * (ee - s * d));
    assert(-(3 * (s * s)) < s * (ee - s * d) < 3 * (s * s)) by (nonlinear_arith)
        requires -(3 * 65536) < ee - s * d < 3 * 65536, s == 65536;
    assert(s * (rr - 3 * s) < s * (s * dotr) && s * (s * dotr) < s * (rr + 3 * s)) by (nonlinear_arith)
        requires rr - 3 * s < s * dotr < rr + 3 * s, s == 65536;
    let big = s * s * (dotr + d);
    assert(s * s * (dotr + d) == s * (s * dotr) + s * s * d) by (nonlinear_arith);
    assert(big == s * (s * dotr) + s * s * d);
    assert(big < s * rr + 3 * (s * s) + s * s * d);
    assert(big > s * rr - 3 * (s * s) + s * s * d);
    // Substitute s * rr and bound every term.
    assert(big < 32 * (s * s) && big > -(32 * (s * s)));
    assert(dotr + d < 32 && dotr + d > -32) by (nonlinear_arith)
        requires big == s * s * (dotr + d), big < 32 * (s * s), big > -(32 * (s * s)), s == 65536;
}

/// Snell refraction of the unit direction `uv` at a surface of normal `n`,
/// with the ratio of refractive indices `etai_over_etat`.  The radicand of
/// the square root is clamped at zero, which guards the degenerate case of a
/// parallel part that fixed-point rounding pushed past unit length.
pub open spec fn refract_s(uv: Vec3, n: Vec3, etai_over_etat: Fx) -> Vec3 {
    let cos_theta = dot_s(v_neg(uv), n);
    let r_out_parallel = v_scale(v_add(uv, v_scale(n, cos_theta)), etai_over_etat);
    let k = ssub(fx(ONE as int), l2_s(r_out_parallel));
    let kk = if k.v >= 0 { k } else { fx(0) };
    let r_out_perp = v_scale(n, sneg(ssqrt(kk)));
    v_add(r_out_parallel, r_out_perp)
}

pub fn refract(uv: &Vec3, n: &Vec3, etai_over_etat: Fx) -> (r: Vec3)
    ensures
        r == refract_s(*uv, *n, etai_over_etat),
{
    let cos_theta = dot(&uv.neg(), n);
    let r_out_parallel = uv.add(&n.scale(cos_theta)).scale(etai_over_etat);
    let k = Fx { v: ONE }.sub(r_out_parallel.length_squared());
    let kk = if k.v >= 0 { k } else { Fx { v: 0 } };
    let r_out_perp = n.scale(kk.sqrt().neg());
    r_out_parallel.add(&r_out_perp)
}

/// Schlick's approximation of the Fresnel reflectance:
/// `r0 + (1 - r0) * (1 - cosine)^5` with `r0 = ((1 - n) / (1 + n))^2`.
pub open spec fn reflectance_s(cosine: Fx, ref_idx: Fx) -> Fx {
    let one = fx(ONE as int);
    let r0 = sdiv(ssub(one, ref_idx), sadd(one, ref_idx));
    let r0sq = smul(r0, r0);
    let p = ssub(one, cosine);
    let p2 = smul(p, p);
    let p4 = smul(p2, p2);
    let p5 = smul(p4, p);
    sadd(r0sq, smul(ssub(one, r0sq), p5))
}

pub fn reflectance(cosine: Fx, ref_idx: Fx) -> (r: Fx)
    requires
        ref_idx.v > -ONE,
    ensures
        r == reflectance_s(cosine, ref_idx),
{
    let one = Fx { v: ONE };
    let r0 = one.sub(ref_idx).div(one.add(ref_idx));
    let r0sq = r0.mul(r0);
    let p = one.sub(cosine);
    let p2 = p.mul(p);
    let p4 = p2.mul(p2);
    let p5 = p4.mul(p);
    r0sq.add(one.sub(r0sq).mul(p5))
}

/// Degrees to radians: `d * pi / 180`.
pub open spec fn degrees_to_radians_s(degrees: Fx) -> Fx {
    sdiv(smul(degrees, fx(PI_FX as int)), fx(DEG_HALF_TURN as int))
}

pub fn degrees_to_radians(degrees: Fx) -> (r: Fx)
    ensures
        r == degrees_to_radians_s(degrees),
{
    degrees.mul(Fx { v: PI_FX }).div(Fx { v: DEG_HALF_TURN })
}

} // verus!
