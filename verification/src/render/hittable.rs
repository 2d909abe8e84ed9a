//! Intersection of rays with spheres, planes and the background.
use vstd::prelude::*;

use crate::math::{dot, spec_dot};
use crate::render::material::Material;
use crate::render::ray::Ray;
use crate::scalar::{Scalar, INFINITY_RAW};
use crate::types::normal::Normal;
use crate::types::point::Point;
use crate::types::vec3::{UnitVec3, Vec3};

verus! {

/// Raw value below which a ray counts as parallel to a plane: 2^-23.
pub const EPSILON_RAW: i64 = 0x200;

/// Where a ray met a surface.
#[derive(Clone, Copy, Debug, PartialEq, Eq, Structural)]
pub struct Hit {
    /// The ray parameter of the meeting point.
    pub travel: Scalar,
    pub point: Point,
    pub normal: Normal,
    pub material: Material,
}

/// Whether `t` lies strictly between `t_min` and `t_max`.
pub open spec fn strictly_within(t: Scalar, t_min: Scalar, t_max: Scalar) -> bool {
    t_min.raw < t.raw < t_max.raw
}

/// `found`, unless its travel reaches `limit`.
pub open spec fn below(found: Option<Hit>, limit: Scalar) -> Option<Hit> {
    match found {
        Some(h) => if h.travel.raw < limit.raw {
            Some(h)
        } else {
            None
        },
        None => None,
    }
}

/// The hit of `item` when no upper end bounds the travel.
pub open spec fn free_hit<H: Hittable>(item: H, ray: Ray, t_min: Scalar) -> Option<Hit> {
    item.spec_hit(ray, t_min, Scalar { raw: INFINITY_RAW })
}

/// Whether an upper end only cuts hits off: `item` answers a bounded query
/// with its unbounded hit where that lies below the end, and with none
/// otherwise; and its unbounded hit lies beyond `t_min`.
pub open spec fn limit_cuts<H: Hittable>(item: H, ray: Ray, t_min: Scalar) -> bool {
    &&& forall|limit: Scalar| #[trigger]
        item.spec_hit(ray, t_min, limit) == below(free_hit(item, ray, t_min), limit)
    &&& free_hit(item, ray, t_min) matches Some(h) ==> t_min.raw < h.travel.raw
}

/// Something that a ray can meet.
pub trait Hittable {
    /// The hit of `ray` whose travel lies in the interval from `t_min` to
    /// `t_max`, if there is one.
    spec fn spec_hit(&self, ray: Ray, t_min: Scalar, t_max: Scalar) -> Option<Hit>;

    fn hit(&self, ray: &Ray, t_min: Scalar, t_max: Scalar) -> (r: Option<Hit>)
        ensures
            r == self.spec_hit(*ray, t_min, t_max),
    ;
}

/// A sphere.
#[derive(Clone, Copy, Debug, PartialEq, Eq, Structural)]
pub struct Sphere {
    pub center: Point,
    pub radius: Scalar,
    pub material: Material,
}

impl Sphere {
    /// The leading coefficient `a = d . d` of the quadratic in the travel.
    pub open spec fn spec_a(self, ray: Ray) -> Scalar {
        spec_dot(ray.direction, ray.direction)
    }

    /// Half the middle coefficient: `(o - c) . d`.
    pub open spec fn spec_half_b(self, ray: Ray) -> Scalar {
        spec_dot(ray.origin.spec_sub(self.center), ray.direction)
    }

    /// A quarter of the discriminant: `half_b^2 - a ((o - c) . (o - c) - r^2)`.
    pub open spec fn spec_discriminant(self, ray: Ray) -> Scalar {
        let oc = ray.origin.spec_sub(self.center);
        let half_b = self.spec_half_b(ray);
        let c = spec_dot(oc, oc).spec_sub(self.radius.spec_mul(self.radius));
        half_b.spec_mul(half_b).spec_sub(self.spec_a(ray).spec_mul(c))
    }

    /// The smaller root: `(-half_b - sqrt(disc)) / a`.
    pub open spec fn spec_near_root(self, ray: Ray) -> Scalar {
        self.spec_half_b(ray).spec_neg().spec_sub(self.spec_discriminant(ray).spec_sqrt()).spec_div(
            self.spec_a(ray),
        )
    }

    /// The larger root: `(-half_b + sqrt(disc)) / a`.
    pub open spec fn spec_far_root(self, ray: Ray) -> Scalar {
        self.spec_half_b(ray).spec_neg().spec_add(self.spec_discriminant(ray).spec_sqrt()).spec_div(
            self.spec_a(ray),
        )
    }

    /// The hit at a given travel: the normal is `(point - center) / radius`,
    /// tagged `Inward` when the ray runs along it.
    pub open spec fn spec_hit_at(self, ray: Ray, travel: Scalar) -> Hit {
        let point = ray.spec_at(travel);
        let normal_vec = point.spec_sub(self.center).spec_div(self.radius);
        Hit {
            travel,
            point,
            normal: if spec_dot(ray.direction, normal_vec).raw > 0 {
                Normal::Inward(UnitVec3(normal_vec))
            } else {
                Normal::Outward(UnitVec3(normal_vec))
            },
            material: self.material,
        }
    }

    fn hit_at(&self, ray: &Ray, travel: Scalar) -> (h: Hit)
        ensures
            h == self.spec_hit_at(*ray, travel),
    {
        let point = ray.at(travel);
        let normal_vec = point.sub(self.center).div(self.radius);
        let normal = if dot(&ray.direction, &normal_vec).raw > 0 {
            Normal::Inward(UnitVec3::unchecked_from(&normal_vec))
        } else {
            Normal::Outward(UnitVec3::unchecked_from(&normal_vec))
        };
        Hit { travel, normal, point, material: self.material }
    }
}

/// The smaller root of a sphere does not exceed the larger one.
pub proof fn lemma_roots_ordered(sphere: Sphere, ray: Ray)
    ensures
        sphere.spec_near_root(ray).raw <= sphere.spec_far_root(ray).raw,
{
    let root = sphere.spec_discriminant(ray).spec_sqrt();
    assert(root.raw >= 0) by {
        reveal(Scalar::spec_sqrt);
    }
    let base = sphere.spec_half_b(ray).spec_neg();
    crate::math::lemma_dot_self_non_negative(ray.direction);
    crate::scalar::lemma_div_monotone(base.spec_sub(root), base.spec_add(root), sphere.spec_a(ray));
}

/// An upper end only cuts the hits of a sphere off.
pub proof fn lemma_sphere_limit(sphere: Sphere, ray: Ray, t_min: Scalar)
    ensures
        limit_cuts(sphere, ray, t_min),
{
    lemma_roots_ordered(sphere, ray);
    assert forall|limit: Scalar| #[trigger]
        sphere.spec_hit(ray, t_min, limit) == below(free_hit(sphere, ray, t_min), limit) by {}
}

/// An upper end only cuts the hit of a plane off.
pub proof fn lemma_plane_limit(plane: Plane, ray: Ray, t_min: Scalar)
    ensures
        limit_cuts(plane, ray, t_min),
{
    assert forall|limit: Scalar| #[trigger]
        plane.spec_hit(ray, t_min, limit) == below(free_hit(plane, ray, t_min), limit) by {}
}

impl Hittable for Sphere {
    /// No hit unless the discriminant is positive (a ray that only touches
    /// the sphere misses it); then the smaller root if it lies strictly
    /// inside the interval, else the larger one if that does.
    open spec fn spec_hit(&self, ray: Ray, t_min: Scalar, t_max: Scalar) -> Option<Hit> {
        if self.spec_discriminant(ray).raw <= 0 {
            None
        } else if strictly_within(self.spec_near_root(ray), t_min, t_max) {
            Some(self.spec_hit_at(ray, self.spec_near_root(ray)))
        } else if strictly_within(self.spec_far_root(ray), t_min, t_max) {
            Some(self.spec_hit_at(ray, self.spec_far_root(ray)))
        } else {
            None
        }
    }

    fn hit(&self, ray: &Ray, t_min: Scalar, t_max: Scalar) -> (r: Option<Hit>)
        ensures
            r matches Some(h) ==> strictly_within(h.travel, t_min, t_max) && h.material
                == self.material && h.point == ray.spec_at(h.travel),
    {
        let oc = ray.origin.sub(self.center);
        let a = dot(&ray.direction, &ray.direction);
        let half_b = dot(&oc, &ray.direction);
        let c = dot(&oc, &oc).sub(self.radius.mul(self.radius));
        let disc = half_b.mul(half_b).sub(a.mul(c));
        if disc.raw <= 0 {
            return None;
        }
        let root = disc.sqrt();
        let near = half_b.neg().sub(root).div(a);
        if near.raw < t_max.raw && near.raw > t_min.raw {
            return Some(self.hit_at(ray, near));
        }
        let far = half_b.neg().add(root).div(a);
        if far.raw < t_max.raw && far.raw > t_min.raw {
            return Some(self.hit_at(ray, far));
        }
        None
    }
}

/// What a ray meets when it meets nothing else.
#[derive(Clone, Copy, Debug, PartialEq, Eq, Structural)]
pub struct Background {
    pub material: Material,
}

impl Hittable for Background {
    /// A hit at infinite travel, and only for a query whose upper end is
    /// infinite. The normal is the reversed direction of the ray, tagged
    /// `Inward`.
    open spec fn spec_hit(&self, ray: Ray, t_min: Scalar, t_max: Scalar) -> Option<Hit> {
        if t_max.raw == INFINITY_RAW {
            Some(
                Hit {
                    travel: t_max,
                    point: ray.spec_at(t_max),
                    normal: Normal::Inward(ray.direction.spec_neg().spec_unit()),
                    material: self.material,
                },
            )
        } else {
            None
        }
    }

    fn hit(&self, ray: &Ray, t_min: Scalar, t_max: Scalar) -> (r: Option<Hit>)
        ensures
            r.is_some() <==> t_max.is_infinite(),
            r matches Some(h) ==> h.travel.is_infinite() && h.material == self.material,
    {
        if t_max.raw == INFINITY_RAW {
            Some(
                Hit {
                    travel: t_max,
                    point: ray.at(t_max),
                    material: self.material,
                    normal: Normal::Inward(ray.direction.neg().unit()),
                },
            )
        } else {
            None
        }
    }
}

/// An unbounded plane through `point`.
#[derive(Clone, Copy, Debug, PartialEq, Eq, Structural)]
pub struct Plane {
    pub point: Point,
    pub normal: Normal,
    pub material: Material,
}

impl Plane {
    /// The scalar product of the outward normal and the ray's direction.
    pub open spec fn spec_denominator(self, ray: Ray) -> Scalar {
        spec_dot(self.normal.spec_outward().0, ray.direction)
    }

    /// The travel at which the ray crosses the plane:
    /// `(point - origin) . n / (n . direction)`.
    pub open spec fn spec_travel(self, ray: Ray) -> Scalar {
        spec_dot(self.point.spec_sub(ray.origin), self.normal.spec_outward().0).spec_div(
            self.spec_denominator(ray),
        )
    }
}

impl Hittable for Plane {
    /// No hit for a ray that is parallel to the plane within `EPSILON_RAW`;
    /// else the crossing, if its travel lies strictly inside the interval.
    /// The hit carries the plane's normal as it is stored.
    open spec fn spec_hit(&self, ray: Ray, t_min: Scalar, t_max: Scalar) -> Option<Hit> {
        if self.spec_denominator(ray).spec_abs().raw <= EPSILON_RAW {
            None
        } else if strictly_within(self.spec_travel(ray), t_min, t_max) {
            Some(
                Hit {
                    travel: self.spec_travel(ray),
                    point: ray.spec_at(self.spec_travel(ray)),
                    normal: self.normal,
                    material: self.material,
                },
            )
        } else {
            None
        }
    }

    fn hit(&self, ray: &Ray, t_min: Scalar, t_max: Scalar) -> (r: Option<Hit>)
        ensures
            r matches Some(h) ==> strictly_within(h.travel, t_min, t_max) && h.material
                == self.material && h.normal == self.normal && h.point == ray.spec_at(h.travel),
    {
        let normal: Vec3 = *self.normal.outward().get();
        let denom = dot(&normal, &ray.direction);
        if denom.abs().raw <= EPSILON_RAW {
            return None;
        }
        let diff = self.point.sub(ray.origin);
        let travel = dot(&diff, &normal).div(denom);
        if travel.raw <= t_min.raw || travel.raw >= t_max.raw {
            return None;
        }
        Some(Hit { travel, point: ray.at(travel), normal: self.normal, material: self.material })
    }
}

} // verus!
