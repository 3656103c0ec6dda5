//! The closed set of surface materials and their scattering behaviour.

use vstd::prelude::*;
use crate::fixed::{
    Fx, fx, ssub, sneg, smul, sdiv, ssqrt, sclamp, lemma_fmul_zero, lemma_fmul_one,
    lemma_fmul_neg_one, lemma_fmul_sq_le_one, lemma_fdiv_one_one, lemma_fsqrt_one,
    lemma_fsqrt_le_one, lemma_tdiv_nonneg, ONE, SCALE,
};
use crate::vec3::{
    Vec3, dot, dot_s, v_add, v_neg, v_scale, l2_s, near_zero_s, unit_s, unit_sample_ok,
};
use crate::ray::Ray;
use crate::hit::HitRecord;
use crate::util::{clamp, reflect, reflect_s, refract, refract_s, reflectance, reflectance_s,
    random_double};

verus! {

/// A color is valid when every channel lies in `[0, 1]`.
pub open spec fn color_ok(c: Vec3) -> bool {
    &&& 0 <= c.x.v <= ONE
    &&& 0 <= c.y.v <= ONE
    &&& 0 <= c.z.v <= ONE
}

/// Diffuse: scatters around the surface normal, attenuating by the albedo.
#[derive(Clone, Copy, PartialEq, Eq, Structural, Debug)]
pub struct Lambertian {
    pub albedo: Vec3,
}

/// Specular with roughness: mirror reflection perturbed by `fuzz`.
#[derive(Clone, Copy, PartialEq, Eq, Structural, Debug)]
pub struct Metal {
    pub albedo: Vec3,
    pub fuzz: Fx,
}

/// Refractive: reflects or refracts by Fresnel reflectance, absorbs nothing.
#[derive(Clone, Copy, PartialEq, Eq, Structural, Debug)]
pub struct Dielectric {
    pub ir: Fx,
}

/// The closed set of materials, dispatched by tag.
#[derive(Clone, Copy, PartialEq, Eq, Structural, Debug)]
pub enum Material {
    Lambertian(Lambertian),
    Metal(Metal),
    Dielectric(Dielectric),
}

impl Material {
    /// A material is valid when its parameters lie in the documented ranges:
    /// albedo channels in `[0, 1]`, fuzz in `[0, 1]`, a positive refractive
    /// index.
    pub open spec fn wf(self) -> bool {
        match self {
            Material::Lambertian(l) => color_ok(l.albedo),
            Material::Metal(m) => color_ok(m.albedo) && 0 <= m.fuzz.v <= ONE,
            Material::Dielectric(d) => d.ir.v > 0,
        }
    }

    /// The attenuation a scatter from this material applies: the albedo for
    /// diffuse and metal surfaces, the identity color for glass.
    pub open spec fn attenuation_of(self) -> Vec3 {
        match self {
            Material::Lambertian(l) => l.albedo,
            Material::Metal(m) => m.albedo,
            Material::Dielectric(_) => Vec3 { x: fx(ONE as int), y: fx(ONE as int), z: fx(ONE as int) },
        }
    }

    /// Dispatch to the variant's scatter.
    pub fn scatter(&self, ray: &Ray, rec: &HitRecord) -> (r: Option<(Vec3, Ray)>)
        requires
            self.wf(),
            rec.wf(),
            !near_zero_s(ray.direction),
            rec.material == *self,
        ensures
            possible_scatter(*self, *ray, *rec, r),
            r matches Some((att, sc)) ==> att == self.attenuation_of() && sc.origin == rec.p
                && !near_zero_s(sc.direction),
            self matches Material::Metal(m) ==> metal_scatter_owed(*m, *ray, *rec, r),
    {
        match self {
            Material::Lambertian(l) => l.scatter(ray, rec),
            Material::Metal(m) => m.scatter(ray, rec),
            Material::Dielectric(d) => d.scatter(ray, rec),
        }
    }
}

/// What a scatter from material `m` can produce for the incoming ray and hit
/// record, over every outcome of the random draws.
pub open spec fn possible_scatter(m: Material, ray: Ray, rec: HitRecord, r: Option<(Vec3, Ray)>) -> bool {
    match m {
        Material::Lambertian(l) => {
            r matches Some((att, sc)) && att == l.albedo && sc.origin == rec.p
                && !near_zero_s(sc.direction)
                && exists|s: Vec3| #[trigger] unit_sample_ok(s)
                    && sc.direction == lambertian_dir_s(rec.normal, s)
        },
        Material::Metal(mm) => {
            r matches Some((att, sc)) ==> att == mm.albedo && sc.origin == rec.p
                && !near_zero_s(sc.direction)
                && dot_s(sc.direction, rec.normal).v > 0
                && exists|q: Vec3| l2_s(q).v < ONE
                    && sc.direction == #[trigger] metal_dir_s(ray, rec.normal, mm.fuzz, q)
        },
        Material::Dielectric(d) => {
            r matches Some((att, sc)) && att == Material::Dielectric(d).attenuation_of()
                && sc.origin == rec.p && !near_zero_s(sc.direction)
                && dielectric_dir_ok(d, ray, rec, sc.direction)
        },
    }
}

/// The diffuse scatter direction: the normal plus a unit sample, or the
/// normal itself when the sum cancels to near zero.
pub open spec fn lambertian_dir_s(normal: Vec3, s: Vec3) -> Vec3 {
    let d = v_add(normal, s);
    if near_zero_s(d) {
        normal
    } else {
        d
    }
}

/// The metal scatter direction: the mirror reflection of the unit incoming
/// direction, perturbed by `fuzz` times an in-ball sample.
pub open spec fn metal_dir_s(ray: Ray, normal: Vec3, fuzz: Fx, q: Vec3) -> Vec3 {
    v_add(reflect_s(unit_s(ray.direction), normal), v_scale(q, fuzz))
}

/// When a metal scatter is owed, over every outcome of the draw: with zero
/// fuzz the draw is inert, so the scatter succeeds exactly when the mirror
/// reflection leaves the surface and does not degenerate; and whenever every
/// admissible draw would leave the surface without degenerating, the scatter
/// succeeds whatever was drawn.
pub open spec fn metal_scatter_owed(m: Metal, ray: Ray, rec: HitRecord, r: Option<(Vec3, Ray)>) -> bool {
    &&& (m.fuzz.v == 0 ==> (r is Some <==>
            dot_s(reflect_s(unit_s(ray.direction), rec.normal), rec.normal).v > 0
            && !near_zero_s(reflect_s(unit_s(ray.direction), rec.normal))))
    &&& ((forall|q: Vec3| l2_s(q).v < ONE ==>
            dot_s(#[trigger] metal_dir_s(ray, rec.normal, m.fuzz, q), rec.normal).v > 0
            && !near_zero_s(metal_dir_s(ray, rec.normal, m.fuzz, q))) ==> r is Some)
}

/// The refraction ratio a dielectric applies: `1 / ir` entering the surface,
/// `ir` leaving it.
pub open spec fn dielectric_ratio_s(d: Dielectric, rec: HitRecord) -> Fx {
    if rec.front_face {
        sdiv(fx(ONE as int), d.ir)
    } else {
        d.ir
    }
}

/// The cosine of the angle of incidence, clamped into `[-1, 1]`.
pub open spec fn dielectric_cos_s(ray: Ray, rec: HitRecord) -> Fx {
    sclamp(
        dot_s(v_neg(unit_s(ray.direction)), rec.normal),
        fx(-(ONE as int)),
        fx(ONE as int),
    )
}

/// The sine of the angle of incidence, from the cosine.
pub open spec fn dielectric_sin_s(ray: Ray, rec: HitRecord) -> Fx {
    let cos = dielectric_cos_s(ray, rec);
    ssqrt(ssub(fx(ONE as int), smul(cos, cos)))
}

/// Total internal reflection: the scaled sine leaves the unit range, so no
/// refracted direction exists.
pub open spec fn dielectric_cannot_refract_s(d: Dielectric, ray: Ray, rec: HitRecord) -> bool {
    smul(dielectric_ratio_s(d, rec), dielectric_sin_s(ray, rec)).v > ONE
}

/// A computed scatter direction, falling back to the surface normal when it
/// degenerates to near zero.
pub open spec fn guarded_dir(d0: Vec3, normal: Vec3) -> Vec3 {
    if near_zero_s(d0) {
        normal
    } else {
        d0
    }
}

/// The directions a dielectric scatter can take: the guarded reflection
/// always, the guarded refraction only when total internal reflection does
/// not force a reflect.
pub open spec fn dielectric_dir_ok(d: Dielectric, ray: Ray, rec: HitRecord, dir: Vec3) -> bool {
    let u = unit_s(ray.direction);
    let ratio = dielectric_ratio_s(d, rec);
    dir == guarded_dir(reflect_s(u, rec.normal), rec.normal)
        || (!dielectric_cannot_refract_s(d, ray, rec)
            && dir == guarded_dir(refract_s(u, rec.normal, ratio), rec.normal))
}

impl Lambertian {
    /// Diffuse scatter: always returns a ray from the hit point whose
    /// direction is the normal plus a fresh unit sample, falling back to the
    /// normal on cancellation; the attenuation is the albedo.
    pub fn scatter(&self, _ray: &Ray, rec: &HitRecord) -> (r: Option<(Vec3, Ray)>)
        requires
            !near_zero_s(rec.normal),
        ensures
            possible_scatter(Material::Lambertian(*self), *_ray, *rec, r),
            r matches Some((att, sc)) && att == self.albedo && sc.origin == rec.p
                && !near_zero_s(sc.direction),
    {
        let s = Vec3::random_unit_vector();
        let d0 = rec.normal.add(&s);
        let scatter_direction = if d0.near_zero() {
            rec.normal
        } else {
            d0
        };
        proof {
            assert(unit_sample_ok(s)
                && scatter_direction == lambertian_dir_s(rec.normal, s));
        }
        Some((self.albedo, Ray { origin: rec.p, direction: scatter_direction }))
    }
}

impl Metal {
    /// Specular scatter: reflect the unit incoming direction about the
    /// normal and perturb by `fuzz`; a perturbed direction on or behind the
    /// surface, or one degenerated to near zero, counts as absorbed.
    pub fn scatter(&self, ray: &Ray, rec: &HitRecord) -> (r: Option<(Vec3, Ray)>)
        requires
            !near_zero_s(ray.direction),
        ensures
            possible_scatter(Material::Metal(*self), *ray, *rec, r),
            r matches Some((att, sc)) ==> att == self.albedo && sc.origin == rec.p
                && !near_zero_s(sc.direction) && dot_s(sc.direction, rec.normal).v > 0,
            self.fuzz.v == 0 ==> (r matches Some((att, sc))
                ==> sc.direction == reflect_s(unit_s(ray.direction), rec.normal)),
            metal_scatter_owed(*self, *ray, *rec, r),
    {
        let reflected = reflect(&ray.direction.unit_vec(), &rec.normal);
        let q = Vec3::random_in_unit_sphere();
        let direction = reflected.add(&q.scale(self.fuzz));
        let scattered = Ray { origin: rec.p, direction };
        let d = dot(&scattered.direction, &rec.normal);
        proof {
            assert(l2_s(q).v < ONE
                && direction == metal_dir_s(*ray, rec.normal, self.fuzz, q));
            if self.fuzz.v == 0 {
                lemma_fmul_zero(q.x.v as int);
                lemma_fmul_zero(q.y.v as int);
                lemma_fmul_zero(q.z.v as int);
                assert(direction == reflect_s(unit_s(ray.direction), rec.normal));
            }
        }
        if d.v > 0 && !scattered.direction.near_zero() {
            proof {
                assert(exists|qq: Vec3| l2_s(qq).v < ONE
                    && direction == #[trigger] metal_dir_s(*ray, rec.normal, self.fuzz, qq));
                assert(possible_scatter(Material::Metal(*self), *ray, *rec,
                    Some((self.albedo, scattered))));
                assert(metal_scatter_owed(*self, *ray, *rec, Some((self.albedo, scattered))));
            }
            Some((self.albedo, scattered))
        } else {
            proof {
                assert(possible_scatter(Material::Metal(*self), *ray, *rec,
                    None::<(Vec3, Ray)>));
                // The drawn sample is an admissible counterexample, so the
                // all-draws-succeed hypothesis fails here.
                assert(!(dot_s(direction, rec.normal).v > 0 && !near_zero_s(direction)));
                assert(metal_scatter_owed(*self, *ray, *rec, None::<(Vec3, Ray)>));
            }
            None
        }
    }
}

impl Dielectric {
    /// Refractive scatter: always returns a ray from the hit point; the
    /// direction reflects under total internal reflection or with Fresnel
    /// probability, and refracts by Snell's law otherwise; glass absorbs
    /// nothing, so the attenuation is the identity color.
    pub fn scatter(&self, ray: &Ray, rec: &HitRecord) -> (r: Option<(Vec3, Ray)>)
        requires
            self.ir.v > 0,
            !near_zero_s(ray.direction),
            !near_zero_s(rec.normal),
        ensures
            possible_scatter(Material::Dielectric(*self), *ray, *rec, r),
            r matches Some((att, sc)) && sc.origin == rec.p && !near_zero_s(sc.direction),
            dielectric_cannot_refract_s(*self, *ray, *rec) ==> (r matches Some((att, sc))
                ==> sc.direction == guarded_dir(
                    reflect_s(unit_s(ray.direction), rec.normal), rec.normal)),
            reflectance_s(dielectric_cos_s(*ray, *rec), dielectric_ratio_s(*self, *rec)).v
                >= ONE ==> (r matches Some((att, sc))
                ==> sc.direction == guarded_dir(
                    reflect_s(unit_s(ray.direction), rec.normal), rec.normal)),
            !dielectric_cannot_refract_s(*self, *ray, *rec)
                && reflectance_s(dielectric_cos_s(*ray, *rec), dielectric_ratio_s(*self, *rec)).v
                    <= 0 ==> (r matches Some((att, sc))
                ==> sc.direction == guarded_dir(
                    refract_s(unit_s(ray.direction), rec.normal,
                        dielectric_ratio_s(*self, *rec)), rec.normal)),
    {
        let attenuation = Vec3 { x: Fx { v: ONE }, y: Fx { v: ONE }, z: Fx { v: ONE } };
        let refraction_ratio = if rec.front_face {
            proof {
                lemma_tdiv_nonneg((ONE as int) * (SCALE as int), self.ir.v as int);
            }
            Fx { v: ONE }.div(self.ir)
        } else {
            self.ir
        };

        let unit_direction = ray.direction.unit_vec();
        // The lower clamp guards the fixed-point square root below; exact
        // unit vectors never reach it.
        let cos_theta = clamp(
            dot(&unit_direction.neg(), &rec.normal),
            Fx { v: -ONE },
            Fx { v: ONE },
        );
        proof {
            lemma_fmul_sq_le_one(cos_theta.v as int);
        }
        let sin_sq = Fx { v: ONE }.sub(cos_theta.mul(cos_theta));
        let sin_theta = sin_sq.sqrt();

        let cannot_refract = refraction_ratio.mul(sin_theta).v > ONE;
        let schlick = reflectance(cos_theta, refraction_ratio);
        let xi = random_double();

        let dir0 = if cannot_refract || schlick.v > xi.v {
            reflect(&unit_direction, &rec.normal)
        } else {
            refract(&unit_direction, &rec.normal, refraction_ratio)
        };
        let direction = if dir0.near_zero() {
            rec.normal
        } else {
            dir0
        };

        Some((attenuation, Ray { origin: rec.p, direction }))
    }
}

/// A dielectric with a refractive index of exactly 1 can never totally
/// internally reflect: its refraction ratio is 1 on either face, and the
/// sine of the incidence angle never exceeds 1.
pub proof fn lemma_unit_ir_never_total_reflection(d: Dielectric, ray: Ray, rec: HitRecord)
    requires
        d.ir == fx(ONE as int),
    ensures
        !dielectric_cannot_refract_s(d, ray, rec),
{
    if rec.front_face {
        lemma_fdiv_one_one();
    }
    let ratio = dielectric_ratio_s(d, rec);
    assert(ratio == fx(ONE as int));
    let cos = dielectric_cos_s(ray, rec);
    assert(-ONE <= cos.v <= ONE);
    lemma_fmul_sq_le_one(cos.v as int);
    let arg = ssub(fx(ONE as int), smul(cos, cos));
    assert(0 <= arg.v <= ONE);
    lemma_fsqrt_le_one(arg.v as int);
    let sin = dielectric_sin_s(ray, rec);
    assert(0 <= sin.v <= ONE);
    lemma_fmul_one(sin.v as int);
}

/// Head-on transmission through a boundary with refraction ratio 1 keeps
/// the incoming unit direction exactly: with the normal opposite the
/// direction and of unit dot with itself, Snell refraction is the identity.
pub proof fn lemma_unit_ratio_refract_head_on(uv: Vec3, n: Vec3)
    requires
        n == v_neg(uv),
        dot_s(n, n) == fx(ONE as int),
        -ONE <= uv.x.v <= ONE,
        -ONE <= uv.y.v <= ONE,
        -ONE <= uv.z.v <= ONE,
    ensures
        refract_s(uv, n, fx(ONE as int)) == uv,
{
    lemma_fmul_one(n.x.v as int);
    lemma_fmul_one(n.y.v as int);
    lemma_fmul_one(n.z.v as int);
    assert(v_scale(n, fx(ONE as int)) == n);
    let zero = Vec3 { x: fx(0), y: fx(0), z: fx(0) };
    assert(v_add(uv, n) == zero);
    lemma_fmul_zero(ONE as int);
    assert(v_scale(zero, fx(ONE as int)) == zero);
    lemma_fmul_zero(0);
    assert(l2_s(zero) == fx(0));
    lemma_fsqrt_one();
    lemma_fmul_neg_one(n.x.v as int);
    lemma_fmul_neg_one(n.y.v as int);
    lemma_fmul_neg_one(n.z.v as int);
    assert(v_scale(n, sneg(ssqrt(fx(ONE as int)))) == uv);
    assert(refract_s(uv, n, fx(ONE as int)) == uv);
}

} // verus!
