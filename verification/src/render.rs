//! The path-tracing integrator and the frame sampler.

use vstd::prelude::*;
use crate::fixed::{
    Fx, fx, sadd, ssub, smul, sclamp, lemma_fmul_one, lemma_fmul_mono, lemma_fmul_unit_bound,
    HALF, ONE, SCALE,
};
use crate::vec3::{Vec3, v_add, v_mul, v_scale, unit_s, near_zero_s, l2_s};
use crate::ray::Ray;
use crate::hit::{HitRecord, Sphere, HittableList, hit_fold};
use crate::material::{Material, possible_scatter, color_ok};
use crate::camera::{Camera, ray_for};
use crate::color::write_channel_s;
use crate::util::{clamp, random_double};

verus! {

/// The shadow-acne bound, about 0.001: intersections closer than this along
/// the ray are ignored, so a scattered ray cannot immediately re-hit the
/// surface it left.
pub const T_MIN_HIT: i64 = 66;

/// The upper bound standing in for an unbounded parameter range.
pub const T_MAX_HIT: i64 = 0x7FFF_FFFF_FFFF_FFFF;

/// The recursion budget for the integrator.
pub const MAX_DEPTH: i64 = 50;

/// The green channel of the sky's zenith color, about 0.7.
pub const SKY_BLUE_G: i64 = 45875;

pub open spec fn black() -> Vec3 {
    Vec3 { x: fx(0), y: fx(0), z: fx(0) }
}

pub open spec fn white() -> Vec3 {
    Vec3 { x: fx(ONE as int), y: fx(ONE as int), z: fx(ONE as int) }
}

/// The sky's zenith color, about (0.5, 0.7, 1.0).
pub open spec fn sky_blue() -> Vec3 {
    Vec3 { x: fx(HALF as int), y: fx(SKY_BLUE_G as int), z: fx(ONE as int) }
}

/// The background gradient: blend white toward light blue by the height of
/// the unit direction; the blend factor is clamped into `[0, 1]` against
/// fixed-point rounding of the normalization.
pub open spec fn sky_s(direction: Vec3) -> Vec3 {
    let t = sky_t(direction);
    v_add(v_scale(white(), ssub(fx(ONE as int), t)), v_scale(sky_blue(), t))
}

/// The sky blend factor: half of one plus the unit direction's height,
/// clamped into `[0, 1]`.
pub open spec fn sky_t(direction: Vec3) -> Fx {
    sclamp(
        smul(fx(HALF as int), sadd(unit_s(direction).y, fx(ONE as int))),
        fx(0),
        fx(ONE as int),
    )
}

/// Sky colors are valid colors.
pub proof fn lemma_sky_ok(direction: Vec3)
    ensures
        color_ok(sky_s(direction)),
{
    let t = sky_t(direction);
    assert(0 <= t.v <= ONE);
    let omt = ssub(fx(ONE as int), t);
    lemma_fmul_one(omt.v as int);
    lemma_fmul_one(t.v as int);
    lemma_fmul_mono(HALF as int, ONE as int, t.v as int);
    lemma_fmul_mono(SKY_BLUE_G as int, ONE as int, t.v as int);
}

/// A valid material's attenuation is a valid color.
pub proof fn lemma_attenuation_ok(m: Material)
    requires
        m.wf(),
    ensures
        color_ok(m.attenuation_of()),
{
}

/// The channel-wise product of valid colors is a valid color.
pub proof fn lemma_color_mul_ok(a: Vec3, b: Vec3)
    requires
        color_ok(a),
        color_ok(b),
    ensures
        color_ok(v_mul(a, b)),
{
    lemma_fmul_unit_bound(a.x.v as int, b.x.v as int);
    lemma_fmul_unit_bound(a.y.v as int, b.y.v as int);
    lemma_fmul_unit_bound(a.z.v as int, b.z.v as int);
}

/// What the integrator can return for a ray, a scene and a depth budget,
/// over every outcome of the random draws: black at exhausted depth or for a
/// degenerate ray, the exact sky gradient on a miss, and on a hit either
/// black (absorption) or the material's attenuation times a possible result
/// of the one-smaller budget.
pub open spec fn possible_trace(ray: Ray, objects: Seq<Sphere>, depth: int, r: Vec3) -> bool
    decreases depth,
{
    if depth <= 0 {
        r == black()
    } else if near_zero_s(ray.direction) {
        r == black()
    } else {
        match hit_fold(objects, ray, fx(T_MIN_HIT as int), fx(T_MAX_HIT as int), None::<HitRecord>) {
            None => r == sky_s(ray.direction),
            Some(rec) => exists|oc: Option<(Vec3, Ray)>|
                #[trigger] possible_scatter(rec.material, ray, rec, oc)
                && match oc {
                    None => r == black(),
                    Some(p) => exists|rest: Vec3|
                        possible_trace(p.1, objects, depth - 1, rest)
                        && r == #[trigger] v_mul(p.0, rest),
                },
        }
    }
}

/// With no objects in the scene, the only possible result at positive depth
/// is the sky gradient for the ray's direction, whatever the depth.
pub proof fn lemma_trace_empty_scene(ray: Ray, objects: Seq<Sphere>, depth: int, r: Vec3)
    requires
        objects.len() == 0,
        depth > 0,
        !near_zero_s(ray.direction),
        possible_trace(ray, objects, depth, r),
    ensures
        r == sky_s(ray.direction),
{
}

/// With the depth budget exhausted, the only possible result is black, for
/// every ray and every scene.
pub proof fn lemma_trace_depth_cap(ray: Ray, objects: Seq<Sphere>, r: Vec3)
    requires
        possible_trace(ray, objects, 0, r),
    ensures
        r == black(),
{
}

/// One ray's radiance: recursive bouncing with a depth cap; all accepted
/// intersections lie in `[T_MIN_HIT, T_MAX_HIT]`.
pub fn ray_trace(ray: &Ray, world: &HittableList, depth: i64) -> (r: Vec3)
    requires
        world.wf(),
    ensures
        possible_trace(*ray, world.objects@, depth as int, r),
        color_ok(r),
        depth <= 0 ==> r == black(),
        depth > 0 && near_zero_s(ray.direction) ==> r == black(),
        depth > 0 && !near_zero_s(ray.direction)
            && hit_fold(world.objects@, *ray, fx(T_MIN_HIT as int), fx(T_MAX_HIT as int), None::<HitRecord>) is None
            ==> r == sky_s(ray.direction),
    decreases depth,
{
    let bk = Vec3 { x: Fx { v: 0 }, y: Fx { v: 0 }, z: Fx { v: 0 } };

    if depth <= 0 {
        return bk;
    }
    // A ray whose direction has degenerated below the near-zero threshold
    // carries no radiance.
    if ray.direction.near_zero() {
        return bk;
    }

    let rec_opt = world.hit(ray, Fx { v: T_MIN_HIT }, Fx { v: T_MAX_HIT });

    match rec_opt {
        Some(rec) => {
            match rec.material.scatter(ray, &rec) {
                Some((attenuation, scattered)) => {
                    let rest = ray_trace(&scattered, world, depth - 1);
                    let result = attenuation.mul(&rest);
                    proof {
                        lemma_attenuation_ok(rec.material);
                        lemma_color_mul_ok(attenuation, rest);
                        assert(result == v_mul(attenuation, rest));
                        assert(exists|rest2: Vec3|
                            possible_trace(scattered, world.objects@, depth as int - 1, rest2)
                            && result == #[trigger] v_mul(attenuation, rest2));
                        assert(possible_scatter(rec.material, *ray, rec,
                            Some((attenuation, scattered))));
                        assert(possible_trace(*ray, world.objects@, depth as int, result));
                    }
                    result
                },
                None => {
                    proof {
                        assert(possible_scatter(rec.material, *ray, rec, None::<(Vec3, Ray)>));
                        assert(possible_trace(*ray, world.objects@, depth as int, bk));
                    }
                    bk
                },
            }
        },
        None => {
            // Gradient background.
            let unit = ray.direction.unit_vec();
            let t = clamp(
                Fx { v: HALF }.mul(unit.y.add(Fx { v: ONE })),
                Fx { v: 0 },
                Fx { v: ONE },
            );
            let c = Vec3 { x: Fx { v: ONE }, y: Fx { v: ONE }, z: Fx { v: ONE } }
                .scale(Fx { v: ONE }.sub(t))
                .add(&Vec3 { x: Fx { v: HALF }, y: Fx { v: SKY_BLUE_G }, z: Fx { v: ONE } }.scale(t));
            proof {
                lemma_sky_ok(ray.direction);
                assert(c == sky_s(ray.direction));
            }
            c
        },
    }
}

/// The jitter coordinate `(k + u) / (extent - 1)` over the uniform sample
/// `u`, in fixed-point form.
pub open spec fn jitter_s(k: int, extent: int, u: Fx) -> Fx {
    crate::fixed::sdiv(sadd(fx(k * SCALE as int), u), fx((extent - 1) * SCALE as int))
}

/// The jitter coordinate for pixel index `k`, with a fresh uniform sample.
fn jitter_coord(k: i32, extent: i32) -> (r: Fx)
    requires
        0 <= k,
        2 <= extent,
    ensures
        exists|u: Fx| 0 <= u.v < ONE && r == #[trigger] jitter_s(k as int, extent as int, u),
{
    let xi = random_double();
    let num = Fx { v: (k as i64) * SCALE }.add(xi);
    let den = Fx { v: ((extent - 1) as i64) * SCALE };
    let r = num.div(den);
    proof {
        assert(0 <= xi.v < ONE && r == jitter_s(k as int, extent as int, xi));
    }
    r
}

/// A primary ray the sampler can cast for pixel `(i, j)` of a `w` by `h`
/// frame: jittered viewport coordinates through the camera, with some lens
/// sample from the unit disk.
pub open spec fn possible_primary_ray(cam: Camera, i: int, j: int, w: int, h: int, r: Ray) -> bool {
    exists|u: Fx, v: Fx, d: Vec3|
        #![trigger ray_for(cam, jitter_s(i, w, u), jitter_s(j, h, v), d)]
        0 <= u.v < ONE && 0 <= v.v < ONE && l2_s(d).v < ONE && d.z.v == 0
        && r == ray_for(cam, jitter_s(i, w, u), jitter_s(j, h, v), d)
}

/// A radiance total the sampler can accumulate over `n` samples of pixel
/// `(i, j)`: each sample traces a possible primary ray at the full depth
/// budget.
pub open spec fn possible_sample_sum(
    cam: Camera,
    objects: Seq<Sphere>,
    i: int,
    j: int,
    w: int,
    h: int,
    n: int,
    acc: Vec3,
) -> bool
    decreases n,
{
    if n <= 0 {
        acc == black()
    } else {
        exists|prev: Vec3, r: Ray, c: Vec3|
            #![trigger possible_primary_ray(cam, i, j, w, h, r), v_add(prev, c)]
            possible_sample_sum(cam, objects, i, j, w, h, n - 1, prev)
            && possible_primary_ray(cam, i, j, w, h, r)
            && possible_trace(r, objects, MAX_DEPTH as int, c)
            && acc == v_add(prev, c)
    }
}

/// The column a pixel index falls in, in the row-major layout.
pub open spec fn pixel_col(k: int, w: int) -> int {
    k % w
}

/// The row a pixel index falls in: rows are emitted top first, so index 0
/// belongs to row `h - 1`.
pub open spec fn pixel_row(k: int, w: int, h: int) -> int {
    h - 1 - k / w
}

/// What one emitted pixel can be: the tone-mapped form of a radiance total
/// the sampler can accumulate for that pixel's coordinates.
pub open spec fn possible_pixel(
    px: (u8, u8, u8),
    cam: Camera,
    objects: Seq<Sphere>,
    k: int,
    w: int,
    h: int,
    gamma: u32,
    samples: int,
) -> bool {
    exists|acc: Vec3|
        #[trigger] possible_sample_sum(cam, objects, pixel_col(k, w), pixel_row(k, w, h), w, h, samples, acc)
        && px.0 as int == write_channel_s(acc.x, gamma, samples)
        && px.1 as int == write_channel_s(acc.y, gamma, samples)
        && px.2 as int == write_channel_s(acc.z, gamma, samples)
}

/// Render the frame: for every pixel, average `samples` traced camera rays,
/// tone-map with `gamma`, and emit RGB triples row by row, top row first.
pub fn render(
    img_width: i32,
    img_height: i32,
    camera: Camera,
    world: HittableList,
    gamma: u32,
    samples: i32,
) -> (pixels: Vec<(u8, u8, u8)>)
    requires
        2 <= img_width,
        2 <= img_height,
        1 <= samples,
        1 <= gamma <= 7,
        world.wf(),
    ensures
        pixels@.len() == img_width as int * img_height as int,
        forall|k: int| 0 <= k < pixels@.len() ==> possible_pixel(
            #[trigger] pixels@[k], camera, world.objects@, k,
            img_width as int, img_height as int, gamma, samples as int),
{
    let mut pixels: Vec<(u8, u8, u8)> = Vec::new();
    let mut j: i32 = img_height;

    while j > 0
        invariant
            0 <= j <= img_height,
            pixels@.len() == (img_height - j) as int * img_width as int,
            2 <= img_width,
            2 <= img_height,
            1 <= samples,
            1 <= gamma <= 7,
            world.wf(),
            forall|k: int| 0 <= k < pixels@.len() ==> possible_pixel(
                #[trigger] pixels@[k], camera, world.objects@, k,
                img_width as int, img_height as int, gamma, samples as int),
        decreases j,
    {
        j = j - 1;
        let mut i: i32 = 0;
        while i < img_width
            invariant
                0 <= i <= img_width,
                0 <= j < img_height,
                pixels@.len() == (img_height - 1 - j) as int * img_width as int + i as int,
                2 <= img_width,
                2 <= img_height,
                1 <= samples,
                1 <= gamma <= 7,
                world.wf(),
                forall|k: int| 0 <= k < pixels@.len() ==> possible_pixel(
                    #[trigger] pixels@[k], camera, world.objects@, k,
                    img_width as int, img_height as int, gamma, samples as int),
            decreases img_width - i,
        {
            let mut color = Vec3 { x: Fx { v: 0 }, y: Fx { v: 0 }, z: Fx { v: 0 } };
            let mut s: i32 = 0;
            proof {
                assert(color == black());
            }
            while s < samples
                invariant
                    0 <= s <= samples,
                    0 <= color.x.v <= s as int * ONE as int,
                    0 <= color.y.v <= s as int * ONE as int,
                    0 <= color.z.v <= s as int * ONE as int,
                    0 <= i < img_width,
                    0 <= j < img_height,
                    2 <= img_width,
                    2 <= img_height,
                    1 <= samples,
                    world.wf(),
                    possible_sample_sum(camera, world.objects@, i as int, j as int,
                        img_width as int, img_height as int, s as int, color),
                decreases samples - s,
            {
                let u = jitter_coord(i, img_width);
                let v = jitter_coord(j, img_height);
                let r = camera.get_ray(u, v);
                let sample = ray_trace(&r, &world, MAX_DEPTH);
                let ghost prev_color = color;
                proof {
                    assert(0 <= s as int * ONE as int
                        && (s as int + 1) * ONE as int <= 0x8000_0000i64 * 65536
                        && s as int * ONE as int + ONE as int == (s as int + 1) * ONE as int)
                        by (nonlinear_arith)
                        requires 0 <= s < 0x8000_0000i64;
                }
                color = color.add(&sample);
                proof {
                    let iw = i as int;
                    let jw = j as int;
                    let w = img_width as int;
                    let h = img_height as int;
                    let uw = choose|uu: Fx| 0 <= uu.v < ONE && u == jitter_s(iw, w, uu);
                    let vw = choose|vv: Fx| 0 <= vv.v < ONE && v == jitter_s(jw, h, vv);
                    let dw = choose|dd: Vec3| l2_s(dd).v < ONE && dd.z.v == 0
                        && r == ray_for(camera, u, v, dd);
                    assert(r == ray_for(camera, jitter_s(iw, w, uw), jitter_s(jw, h, vw), dw));
                    assert(possible_primary_ray(camera, iw, jw, w, h, r));
                    assert(color == v_add(prev_color, sample));
                    assert(possible_sample_sum(camera, world.objects@, iw, jw, w, h,
                        s as int + 1, color));
                }
                s = s + 1;
            }
            let rgb = color.write(gamma, samples);
            proof {
                let w = img_width as int;
                let h = img_height as int;
                let kk = pixels@.len() as int;
                vstd::arithmetic::div_mod::lemma_fundamental_div_mod_converse(
                    kk, w, h - 1 - j as int, i as int);
                assert(pixel_col(kk, w) == i as int && pixel_row(kk, w, h) == j as int);
                assert(possible_sample_sum(camera, world.objects@, pixel_col(kk, w),
                    pixel_row(kk, w, h), w, h, samples as int, color));
                assert(possible_pixel(rgb, camera, world.objects@, kk, w, h, gamma,
                    samples as int));
            }
            pixels.push(rgb);
            proof {
                assert((img_height - 1 - j) as int * img_width as int + img_width as int
                    == (img_height - j) as int * img_width as int) by (nonlinear_arith);
                assert((img_height - 1 - j) as int * img_width as int + (i + 1) as int
                    == (img_height - 1 - j) as int * img_width as int + i as int + 1);
            }
            i = i + 1;
        }
        proof {
            assert((img_height - 1 - j) as int * img_width as int + img_width as int
                == (img_height - j) as int * img_width as int) by (nonlinear_arith);
        }
    }
    proof {
        assert(img_height as int * img_width as int == img_width as int * img_height as int)
            by (nonlinear_arith);
    }
    pixels
}

} // verus!
