//! Scalar products and angles.
use vstd::prelude::*;

use crate::scalar::Scalar;
use crate::trig::PI_RAW;
use crate::types::vec3::Vec3;

verus! {

/// Scalar product, summed from left to right.
pub open spec fn spec_dot(v1: Vec3, v2: Vec3) -> Scalar {
    v1.x.spec_mul(v2.x).spec_add(v1.y.spec_mul(v2.y)).spec_add(v1.z.spec_mul(v2.z))
}

/// The angle of `d` degrees in radians: `pi * d / 180`.
pub open spec fn spec_deg_to_radians(d: Scalar) -> Scalar {
    (Scalar { raw: PI_RAW }).spec_mul(d).spec_div(Scalar::spec_from_int(180))
}

pub open spec fn spec_same_orientation(v1: Vec3, v2: Vec3) -> bool {
    spec_dot(v1, v2).raw > 0
}

/// The scalar product of a vector with itself is not negative.
pub proof fn lemma_dot_self_non_negative(v: Vec3)
    ensures
        spec_dot(v, v).raw >= 0,
{
    crate::scalar::lemma_square_non_negative(v.x);
    crate::scalar::lemma_square_non_negative(v.y);
    crate::scalar::lemma_square_non_negative(v.z);
}

pub fn dot(v1: &Vec3, v2: &Vec3) -> (r: Scalar)
    ensures
        r == spec_dot(*v1, *v2),
{
    v1.x.mul(v2.x).add(v1.y.mul(v2.y)).add(v1.z.mul(v2.z))
}

pub fn deg_to_radians(d: Scalar) -> (r: Scalar)
    ensures
        r == spec_deg_to_radians(d),
{
    Scalar::from_raw(PI_RAW).mul(d).div(Scalar::from_int(180))
}

/// Whether the two vectors point into the same half space.
pub fn same_orientation(v1: &Vec3, v2: &Vec3) -> (r: bool)
    ensures
        r == spec_same_orientation(*v1, *v2),
{
    dot(v1, v2).raw > 0
}

} // verus!
