//! Rays: an origin and a direction of any length.
use vstd::prelude::*;

use crate::scalar::Scalar;
use crate::types::point::Point;
use crate::types::vec3::Vec3;

verus! {

/// The half line `origin + t * direction`.
#[derive(Clone, Copy, Debug, PartialEq, Eq, Structural)]
pub struct Ray {
    pub origin: Point,
    pub direction: Vec3,
}

impl Ray {
    /// The point at parameter `t`.
    pub open spec fn spec_at(self, t: Scalar) -> Point {
        self.origin.spec_add(self.direction.spec_scale(t))
    }

    pub fn at(&self, t: Scalar) -> (p: Point)
        ensures
            p == self.spec_at(t),
    {
        self.origin.add(self.direction.scale(t))
    }
}

} // verus!
