//! Rays: an origin with a direction, evaluated parametrically.

use vstd::prelude::*;
use crate::fixed::Fx;
use crate::vec3::{Vec3, v_add, v_scale};

verus! {

#[derive(Clone, Copy, PartialEq, Eq, Structural, Debug)]
pub struct Ray {
    pub origin: Vec3,
    pub direction: Vec3,
}

/// The point `origin + t * direction`.
pub open spec fn at_s(r: Ray, t: Fx) -> Vec3 {
    v_add(r.origin, v_scale(r.direction, t))
}

impl Ray {
    pub fn at(&self, t: Fx) -> (p: Vec3)
        ensures
            p == at_s(*self, t),
    {
        self.origin.add(&self.direction.scale(t))
    }
}

} // verus!
