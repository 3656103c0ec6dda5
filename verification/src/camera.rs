//! The thin-lens camera: maps normalized viewport coordinates to world-space
//! rays, with an aperture for depth of field.

use vstd::prelude::*;
use crate::fixed::{Fx, fx, smul, sdiv, lemma_fmul_zero, lemma_tdiv_nonneg, ONE, TWO};
use crate::vec3::{
    Vec3, cross, cross_s, v_add, v_sub, v_div, v_scale, l2_s, unit_s, near_zero_s,
};
use crate::ray::Ray;

verus! {

#[derive(Clone, Copy, PartialEq, Eq, Structural, Debug)]
pub struct Camera {
    pub origin: Vec3,
    pub horizontal: Vec3,
    pub vertical: Vec3,
    pub lower_left_corner: Vec3,
    pub u: Vec3,
    pub v: Vec3,
    pub w: Vec3,
    pub lens_radius: Fx,
}

/// The whole derivation of a camera from its parameters: viewport size from
/// the tangent of half the vertical field of view, the orthonormal-ish basis
/// `(u, v, w)`, the focus-scaled viewport vectors, and the lens radius as
/// half the aperture.
pub open spec fn camera_s(
    lookfrom: Vec3,
    lookat: Vec3,
    vup: Vec3,
    tan_half_fov: Fx,
    aspect_ratio: Fx,
    aperture: Fx,
    focus_dist: Fx,
) -> Camera {
    let viewport_height = smul(fx(TWO as int), tan_half_fov);
    let viewport_width = smul(aspect_ratio, viewport_height);
    let w = unit_s(v_sub(lookfrom, lookat));
    let u = unit_s(cross_s(vup, w));
    let v = cross_s(w, u);
    let horizontal = v_scale(v_scale(u, viewport_width), focus_dist);
    let vertical = v_scale(v_scale(v, viewport_height), focus_dist);
    let lower_left_corner = v_sub(
        v_sub(v_sub(lookfrom, v_div(horizontal, fx(TWO as int))), v_div(vertical, fx(TWO as int))),
        v_scale(w, focus_dist),
    );
    Camera {
        origin: lookfrom,
        horizontal,
        vertical,
        lower_left_corner,
        u,
        v,
        w,
        lens_radius: sdiv(aperture, fx(TWO as int)),
    }
}

/// The ray a camera casts for viewport coordinates `(s, t)` and the lens
/// sample `d`: the lens offset is `d` scaled by the lens radius, projected
/// onto the camera basis.
pub open spec fn ray_for(cam: Camera, s: Fx, t: Fx, d: Vec3) -> Ray {
    let rd = v_scale(d, cam.lens_radius);
    let offset = v_add(v_scale(cam.u, rd.x), v_scale(cam.v, rd.y));
    Ray {
        origin: v_add(cam.origin, offset),
        direction: v_sub(
            v_sub(
                v_add(cam.lower_left_corner, v_add(v_scale(cam.horizontal, s), v_scale(cam.vertical, t))),
                cam.origin,
            ),
            offset,
        ),
    }
}

/// A camera without an aperture is a pinhole: whatever the lens sample, the
/// ray starts exactly at the camera origin.
pub proof fn lemma_pinhole_origin(cam: Camera, s: Fx, t: Fx, d: Vec3)
    requires
        cam.lens_radius.v == 0,
    ensures
        ray_for(cam, s, t, d).origin == cam.origin,
{
    lemma_fmul_zero(d.x.v as int);
    lemma_fmul_zero(d.y.v as int);
    lemma_fmul_zero(cam.u.x.v as int);
    lemma_fmul_zero(cam.u.y.v as int);
    lemma_fmul_zero(cam.u.z.v as int);
    lemma_fmul_zero(cam.v.x.v as int);
    lemma_fmul_zero(cam.v.y.v as int);
    lemma_fmul_zero(cam.v.z.v as int);
}

impl Camera {
    /// Derive a camera; the viewing direction must not degenerate, and the
    /// up direction must not be parallel to it.
    pub fn new(
        lookfrom: Vec3,
        lookat: Vec3,
        vup: Vec3,
        tan_half_fov: Fx,
        aspect_ratio: Fx,
        aperture: Fx,
        focus_dist: Fx,
    ) -> (r: Camera)
        requires
            !near_zero_s(v_sub(lookfrom, lookat)),
            !near_zero_s(cross_s(vup, unit_s(v_sub(lookfrom, lookat)))),
        ensures
            r == camera_s(lookfrom, lookat, vup, tan_half_fov, aspect_ratio, aperture, focus_dist),
            aperture.v == 0 ==> r.lens_radius.v == 0,
    {
        let viewport_height = Fx { v: TWO }.mul(tan_half_fov);
        let viewport_width = aspect_ratio.mul(viewport_height);

        let w = lookfrom.sub(&lookat).unit_vec();
        let u = cross(&vup, &w).unit_vec();
        let v = cross(&w, &u);

        let origin = lookfrom;
        let horizontal = u.scale(viewport_width).scale(focus_dist);
        let vertical = v.scale(viewport_height).scale(focus_dist);
        let lower_left_corner = origin
            .sub(&horizontal.div_by(Fx { v: TWO }))
            .sub(&vertical.div_by(Fx { v: TWO }))
            .sub(&w.scale(focus_dist));

        let lens_radius = aperture.div(Fx { v: TWO });
        proof {
            if aperture.v == 0 {
                lemma_tdiv_nonneg(0, TWO as int);
            }
        }

        Camera {
            origin,
            horizontal,
            vertical,
            lower_left_corner,
            u,
            v,
            w,
            lens_radius,
        }
    }

    /// Cast the ray for viewport coordinates `(s, t)`, drawing a fresh lens
    /// sample; with a zero lens radius the origin is exactly the camera
    /// origin.
    pub fn get_ray(&self, s: Fx, t: Fx) -> (r: Ray)
        ensures
            exists|d: Vec3| l2_s(d).v < ONE && d.z.v == 0
                && r == #[trigger] ray_for(*self, s, t, d),
            self.lens_radius.v == 0 ==> r.origin == self.origin,
    {
        let d = Vec3::random_in_unit_disk();
        let rd = d.scale(self.lens_radius);
        let offset = self.u.scale(rd.x).add(&self.v.scale(rd.y));

        let r = Ray {
            origin: self.origin.add(&offset),
            direction: self
                .lower_left_corner
                .add(&self.horizontal.scale(s).add(&self.vertical.scale(t)))
                .sub(&self.origin)
                .sub(&offset),
        };
        proof {
            assert(r == ray_for(*self, s, t, d));
            if self.lens_radius.v == 0 {
                lemma_pinhole_origin(*self, s, t, d);
            }
        }
        r
    }
}

} // verus!
