//! Mirror reflection and refraction of directions.
use vstd::prelude::*;

use crate::math::{dot, spec_dot};
use crate::scalar::Scalar;
use crate::trig::TWO_RAW;
use crate::types::vec3::{UnitVec3, Vec3};

verus! {

/// The mirror image of `v` on a surface with normal `n`: `v - 2 (v . n) n`.
pub open spec fn spec_reflect(v: UnitVec3, n: UnitVec3) -> Vec3 {
    v.0.spec_sub(n.0.spec_scale((Scalar { raw: TWO_RAW }).spec_mul(spec_dot(v.0, n.0))))
}

/// The part of the refracted direction that lies across the normal.
pub open spec fn spec_refract_across(v: UnitVec3, n: UnitVec3, n_ratio: Scalar) -> Vec3 {
    let cos_theta = spec_dot(v.0.spec_neg(), n.0);
    v.0.spec_add(n.0.spec_scale(cos_theta)).spec_scale(n_ratio)
}

/// The direction of `v` after it crosses a surface with normal `n` between
/// media whose refraction indices have the ratio `n_ratio`.
pub open spec fn spec_refract(v: UnitVec3, n: UnitVec3, n_ratio: Scalar) -> Vec3 {
    let across = spec_refract_across(v, n, n_ratio);
    let len_squared = spec_dot(across, across);
    let one = Scalar { raw: crate::scalar::ONE_RAW };
    let along = n.0.spec_scale(one.spec_sub(len_squared).spec_abs().spec_sqrt().spec_neg());
    across.spec_add(along)
}

/// The law of reflection on a flat surface whose normal is the z axis: the
/// component of `v` along the normal changes its sign, and the two others
/// stay as they are. It holds of every `v` whose doubled z component is
/// within range.
pub proof fn lemma_reflect_on_z_plane(v: UnitVec3)
    requires
        -0x4000_0000_0000_0000 <= v.0.z.raw <= 0x3fff_ffff_ffff_ffff,
    ensures
        spec_reflect(
            v,
            UnitVec3(
                Vec3 {
                    x: Scalar { raw: 0 },
                    y: Scalar { raw: 0 },
                    z: Scalar { raw: crate::scalar::ONE_RAW },
                },
            ),
        ) == (Vec3 { x: v.0.x, y: v.0.y, z: Scalar { raw: (-v.0.z.raw) as i64 } }),
{
    let zero = Scalar { raw: 0 };
    let one = Scalar { raw: crate::scalar::ONE_RAW };
    let two = Scalar { raw: TWO_RAW };
    crate::scalar::lemma_mul_zero(v.0.x);
    crate::scalar::lemma_mul_zero(v.0.y);
    crate::scalar::lemma_mul_one(v.0.z);
    let along = spec_dot(v.0, Vec3 { x: zero, y: zero, z: one });
    assert(along == v.0.z);
    let twice = two.spec_mul(along);
    assert(twice.raw == 2 * v.0.z.raw) by {
        reveal(Scalar::spec_mul);
        assert(TWO_RAW * v.0.z.raw == (2 * v.0.z.raw) * crate::scalar::ONE_RAW)
            by (nonlinear_arith)
            requires
                TWO_RAW == 2 * crate::scalar::ONE_RAW,
        ;
        crate::scalar::lemma_quotient_of_multiple(2 * v.0.z.raw, crate::scalar::ONE_RAW as int);
    }
    crate::scalar::lemma_mul_zero(twice);
    crate::scalar::lemma_mul_one(twice);
}

pub fn reflect(v: &UnitVec3, n: &UnitVec3) -> (r: Vec3)
    ensures
        r == spec_reflect(*v, *n),
{
    let v = v.get();
    let n = n.get();
    v.sub(n.scale(Scalar::from_raw(TWO_RAW).mul(dot(v, n))))
}

pub fn refract(v: &UnitVec3, n: &UnitVec3, n_ratio: Scalar) -> (r: Vec3)
    ensures
        r == spec_refract(*v, *n, n_ratio),
{
    let v = v.get();
    let n = n.get();
    let cos_theta = dot(&v.neg(), n);
    let across = v.add(n.scale(cos_theta)).scale(n_ratio);
    let len_squared = dot(&across, &across);
    let along = n.scale(Scalar::one().sub(len_squared).abs().sqrt().neg());
    across.add(along)
}

} // verus!
