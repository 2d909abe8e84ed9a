//! Positions in space, kept apart from free vectors.
use vstd::prelude::*;

use crate::scalar::Scalar;
use crate::types::vec3::Vec3;

verus! {

/// A position in space.
#[derive(Clone, Copy, Debug, PartialEq, Eq, Structural)]
pub struct Point {
    pub x: Scalar,
    pub y: Scalar,
    pub z: Scalar,
}

impl Point {
    /// The point reached from `self` along `v`.
    pub open spec fn spec_add(self, v: Vec3) -> Point {
        Point { x: self.x.spec_add(v.x), y: self.y.spec_add(v.y), z: self.z.spec_add(v.z) }
    }

    /// The vector that leads from `rhs` to `self`.
    pub open spec fn spec_sub(self, rhs: Point) -> Vec3 {
        Vec3 { x: self.x.spec_sub(rhs.x), y: self.y.spec_sub(rhs.y), z: self.z.spec_sub(rhs.z) }
    }

    pub fn new(x: Scalar, y: Scalar, z: Scalar) -> (r: Point)
        ensures
            r == (Point { x, y, z }),
    {
        Point { x, y, z }
    }

    pub fn add(self, v: Vec3) -> (r: Point)
        ensures
            r == self.spec_add(v),
    {
        Point { x: self.x.add(v.x), y: self.y.add(v.y), z: self.z.add(v.z) }
    }

    pub fn sub(self, rhs: Point) -> (r: Vec3)
        ensures
            r == self.spec_sub(rhs),
    {
        Vec3 { x: self.x.sub(rhs.x), y: self.y.sub(rhs.y), z: self.z.sub(rhs.z) }
    }
}

} // verus!
