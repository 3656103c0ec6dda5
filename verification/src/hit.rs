//! Ray–sphere intersection and the scene: a list of spheres answering
//! nearest-hit queries.

use vstd::prelude::*;
use crate::fixed::{Fx, sadd, ssub, sneg, smul, sdiv, ssqrt};
use crate::vec3::{
    Vec3, dot, dot_s, v_sub, v_div, v_neg, near_zero_s, l2_s, lemma_not_near_zero_l2,
};
use crate::ray::{Ray, at_s};
use crate::material::Material;

verus! {

/// The record of a successful intersection: the point, the normal oriented
/// against the incoming ray, the surface's material, the ray parameter, and
/// which side was hit.
#[derive(Clone, Copy, PartialEq, Eq, Structural, Debug)]
pub struct HitRecord {
    pub p: Vec3,
    pub normal: Vec3,
    pub material: Material,
    pub t: Fx,
    pub front_face: bool,
}

impl HitRecord {
    /// A record is valid when its normal is usable as a direction and its
    /// material parameters are in range.
    pub open spec fn wf(self) -> bool {
        !near_zero_s(self.normal) && self.material.wf()
    }

    /// Orientation of the normal: against the ray, with `front_face`
    /// recording which side the ray came from.
    pub open spec fn from_outward_normal_s(
        ray: Ray,
        p: Vec3,
        material: Material,
        outward_normal: Vec3,
        t: Fx,
    ) -> HitRecord {
        let front_face = dot_s(ray.direction, outward_normal).v < 0;
        HitRecord {
            p,
            normal: if front_face {
                outward_normal
            } else {
                v_neg(outward_normal)
            },
            material,
            t,
            front_face,
        }
    }

    pub fn from_outward_normal(
        ray: &Ray,
        p: Vec3,
        material: Material,
        outward_normal: Vec3,
        t: Fx,
    ) -> (r: HitRecord)
        ensures
            r == HitRecord::from_outward_normal_s(*ray, p, material, outward_normal, t),
            !near_zero_s(outward_normal) ==> !near_zero_s(r.normal),
    {
        let front_face = dot(&ray.direction, &outward_normal).v < 0;
        let normal = if front_face {
            outward_normal
        } else {
            outward_normal.neg()
        };
        HitRecord { p, normal, material, t, front_face }
    }
}

/// A sphere of positive radius, carrying its material.
#[derive(Clone, Copy, PartialEq, Eq, Structural, Debug)]
pub struct Sphere {
    pub center: Vec3,
    pub material: Material,
    pub radius: Fx,
}

impl Sphere {
    pub open spec fn wf(self) -> bool {
        self.radius.v > 0 && self.material.wf()
    }

    /// The whole intersection computation: the quadratic in `t`, the nearest
    /// root within `[t_min, t_max]`, and the oriented hit record.  A root
    /// whose outward normal degenerates to near zero counts as a miss.
    pub open spec fn hit_s(self, ray: Ray, t_min: Fx, t_max: Fx) -> Option<HitRecord> {
        let oc = v_sub(ray.origin, self.center);
        let a = dot_s(ray.direction, ray.direction);
        let half_b = dot_s(oc, ray.direction);
        let c = ssub(dot_s(oc, oc), smul(self.radius, self.radius));
        let disc = ssub(smul(half_b, half_b), smul(a, c));
        if disc.v < 0 {
            None
        } else {
            let sqrtd = ssqrt(disc);
            let root1 = sdiv(ssub(sneg(half_b), sqrtd), a);
            let root2 = sdiv(sadd(sneg(half_b), sqrtd), a);
            let chosen = if !(root1.v < t_min.v || t_max.v < root1.v) {
                Some(root1)
            } else if !(root2.v < t_min.v || t_max.v < root2.v) {
                Some(root2)
            } else {
                None
            };
            match chosen {
                None => None,
                Some(root) => {
                    let p = at_s(ray, root);
                    let outward = v_div(v_sub(p, self.center), self.radius);
                    if near_zero_s(outward) {
                        None
                    } else {
                        Some(HitRecord::from_outward_normal_s(ray, p, self.material, outward, root))
                    }
                },
            }
        }
    }

    /// Solve `|origin + t * direction - center|^2 = radius^2` and accept the
    /// nearest root within `[t_min, t_max]`.
    pub fn hit(&self, ray: &Ray, t_min: Fx, t_max: Fx) -> (r: Option<HitRecord>)
        requires
            self.wf(),
            !near_zero_s(ray.direction),
        ensures
            r == self.hit_s(*ray, t_min, t_max),
            r matches Some(rec) ==> rec.wf() && t_min.v <= rec.t.v <= t_max.v
                && rec.material == self.material,
    {
        proof {
            lemma_not_near_zero_l2(ray.direction);
        }
        let oc = ray.origin.sub(&self.center);
        let a = dot(&ray.direction, &ray.direction);
        let half_b = dot(&oc, &ray.direction);
        let c = dot(&oc, &oc).sub(self.radius.mul(self.radius));

        let disc = half_b.mul(half_b).sub(a.mul(c));
        if disc.v < 0 {
            return None;
        }
        let sqrtd = disc.sqrt();

        // Find the nearest root that lies in the acceptable range.
        let mut root = half_b.neg().sub(sqrtd).div(a);
        if root.v < t_min.v || t_max.v < root.v {
            root = half_b.neg().add(sqrtd).div(a);
            if root.v < t_min.v || t_max.v < root.v {
                return None;
            }
        }

        let p = ray.at(root);
        let outward_normal = p.sub(&self.center).div_by(self.radius);
        if outward_normal.near_zero() {
            return None;
        }

        Some(HitRecord::from_outward_normal(ray, p, self.material, outward_normal, root))
    }
}

/// The scene: an ordered collection of spheres.
pub struct HittableList {
    pub objects: Vec<Sphere>,
}

/// The nearest-hit scan, fold-style: walk the objects left to right, keeping
/// the closest accepted record and shrinking the upper bound to its `t`.
pub open spec fn hit_fold(
    objects: Seq<Sphere>,
    ray: Ray,
    t_min: Fx,
    closest: Fx,
    acc: Option<HitRecord>,
) -> Option<HitRecord>
    decreases objects.len(),
{
    if objects.len() == 0 {
        acc
    } else {
        match objects[0].hit_s(ray, t_min, closest) {
            Some(rec) => hit_fold(objects.drop_first(), ray, t_min, rec.t, Some(rec)),
            None => hit_fold(objects.drop_first(), ray, t_min, closest, acc),
        }
    }
}

impl HittableList {
    /// Every object of the scene is valid.
    pub open spec fn wf(self) -> bool {
        forall|i: int| 0 <= i < self.objects@.len() ==> (#[trigger] self.objects@[i]).wf()
    }

    pub fn new() -> (r: Self)
        ensures
            r.objects@.len() == 0,
            r.wf(),
    {
        HittableList { objects: Vec::new() }
    }

    pub fn add(&mut self, object: Sphere)
        requires
            object.wf(),
        ensures
            final(self).objects@ == old(self).objects@.push(object),
            old(self).wf() ==> final(self).wf(),
    {
        self.objects.push(object);
    }

    pub fn clear(&mut self)
        ensures
            final(self).objects@.len() == 0,
    {
        self.objects.clear();
    }

    /// The single nearest hit over all objects within `[t_min, t_max]`, or
    /// none.
    pub fn hit(&self, ray: &Ray, t_min: Fx, t_max: Fx) -> (r: Option<HitRecord>)
        requires
            self.wf(),
            !near_zero_s(ray.direction),
        ensures
            r == hit_fold(self.objects@, *ray, t_min, t_max, None::<HitRecord>),
            r matches Some(rec) ==> rec.wf() && t_min.v <= rec.t.v <= t_max.v,
    {
        let ghost all = self.objects@;
        let mut closest = t_max;
        let mut result: Option<HitRecord> = None;
        let mut i: usize = 0;
        proof {
            assert(all.skip(0) =~= all);
        }

        while i < self.objects.len()
            invariant
                i <= self.objects@.len(),
                self.objects@ == all,
                self.wf(),
                !near_zero_s(ray.direction),
                hit_fold(all.skip(i as int), *ray, t_min, closest, result)
                    == hit_fold(all, *ray, t_min, t_max, None::<HitRecord>),
                result matches Some(rec) ==> rec.wf() && t_min.v <= rec.t.v <= t_max.v
                    && rec.t == closest,
                result is None ==> closest == t_max,
            decreases self.objects@.len() - i,
        {
            let ghost pre = all.skip(i as int);
            proof {
                assert(pre[0] == all[i as int]);
                assert(pre.drop_first() =~= all.skip(i as int + 1));
            }
            match self.objects[i].hit(ray, t_min, closest) {
                Some(rec) => {
                    closest = rec.t;
                    result = Some(rec);
                },
                None => {},
            }
            i = i + 1;
        }
        proof {
            assert(all.skip(all.len() as int) =~= Seq::<Sphere>::empty());
        }
        result
    }
}

} // verus!
