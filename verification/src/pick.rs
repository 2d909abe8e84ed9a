//! Which object of a scene a ray meets first.
use vstd::prelude::*;

use crate::render::hittable::{
    free_hit, lemma_plane_limit, lemma_sphere_limit, limit_cuts, Hittable,
};
use crate::render::camera::{Camera, Canvas};
use crate::render::ray::Ray;
use crate::scalar::{Scalar, INFINITY_RAW};
use crate::scene::{closest_among, lemma_closest_among, Closest, Scene};
use crate::tracer::{spec_first_hit, T_MIN_RAW};

verus! {

/// An object of a scene, by its kind and its position in the scene.
#[derive(Clone, Copy, Debug, PartialEq, Eq, Structural)]
pub enum Object {
    Sphere(usize),
    Plane(usize),
}

/// Whether `picked` names the object that `ray` meets first in `scene`, by
/// the rule of the renderer: the hit of that object is the hit that the
/// renderer finds. Nothing is picked exactly when no sphere and no plane is
/// hit, and the renderer sees the background.
pub open spec fn is_picked(scene: &Scene, ray: Ray, picked: Option<Object>) -> bool {
    let t_min = Scalar { raw: T_MIN_RAW };
    let t_max = Scalar { raw: INFINITY_RAW };
    match picked {
        Some(Object::Sphere(i)) => {
            &&& i < scene.spheres.len()
            &&& scene.spheres[i as int].spec_hit(ray, t_min, t_max) is Some
            &&& scene.spheres[i as int].spec_hit(ray, t_min, t_max) == spec_first_hit(scene, ray)
        },
        Some(Object::Plane(j)) => {
            &&& j < scene.planes.len()
            &&& scene.planes[j as int].spec_hit(ray, t_min, t_max) is Some
            &&& scene.planes[j as int].spec_hit(ray, t_min, t_max) == spec_first_hit(scene, ray)
        },
        None => {
            &&& spec_first_hit(scene, ray) == scene.background.spec_hit(ray, t_min, t_max)
            &&& forall|i: int|
                0 <= i < scene.spheres.len() ==> (#[trigger] scene.spheres[i].spec_hit(
                    ray,
                    t_min,
                    t_max,
                )) is None
            &&& forall|j: int|
                0 <= j < scene.planes.len() ==> (#[trigger] scene.planes[j].spec_hit(
                    ray,
                    t_min,
                    t_max,
                )) is None
        },
    }
}

/// The object that `ray` meets first, if it meets a sphere or a plane.
pub fn get_hit_object(scene: &Scene, ray: &Ray) -> (picked: Option<Object>)
    ensures
        is_picked(scene, *ray, picked),
{
    let t_min = Scalar::from_raw(T_MIN_RAW);
    let t_max = Scalar::infinity();
    let ghost start = Closest { limit: t_max, hit: scene.background.spec_hit(*ray, t_min, t_max) };
    let ghost mut best = start;
    let mut picked: Option<Object> = None;
    let mut limit = t_max;
    let mut i: usize = 0;
    assert(scene.spheres@.take(0) =~= Seq::empty());
    while i < scene.spheres.len()
        invariant
            i <= scene.spheres.len(),
            t_min.raw == T_MIN_RAW,
            best == closest_among(scene.spheres@.take(i as int), *ray, t_min, start),
            limit == best.limit,
            picked is None ==> best == start,
            picked matches Some(o) ==> (o matches Object::Sphere(k) && k < i && best.hit is Some
                && best.hit == free_hit(scene.spheres[k as int], *ray, t_min)),
        decreases scene.spheres.len() - i,
    {
        let candidate = scene.spheres[i].hit(ray, t_min, limit);
        proof {
            assert(scene.spheres@.take(i + 1).drop_last() =~= scene.spheres@.take(i as int));
            assert(scene.spheres@.take(i + 1).last() == scene.spheres@[i as int]);
            lemma_sphere_limit(scene.spheres[i as int], *ray, t_min);
        }
        match candidate {
            Some(h) => {
                picked = Some(Object::Sphere(i));
                limit = h.travel;
                proof {
                    best = Closest { limit: h.travel, hit: Some(h) };
                }
            },
            None => {},
        }
        i = i + 1;
    }
    assert(scene.spheres@.take(scene.spheres.len() as int) =~= scene.spheres@);
    let ghost middle = best;
    let mut j: usize = 0;
    assert(scene.planes@.take(0) =~= Seq::empty());
    while j < scene.planes.len()
        invariant
            j <= scene.planes.len(),
            t_min.raw == T_MIN_RAW,
            middle == closest_among(scene.spheres@, *ray, t_min, start),
            best == closest_among(scene.planes@.take(j as int), *ray, t_min, middle),
            limit == best.limit,
            picked is None ==> best == start && middle == start,
            picked matches Some(o) ==> match o {
                Object::Sphere(k) => k < scene.spheres.len() && best.hit is Some && best.hit
                    == free_hit(scene.spheres[k as int], *ray, t_min),
                Object::Plane(k) => k < j && best.hit is Some && best.hit == free_hit(
                    scene.planes[k as int],
                    *ray,
                    t_min,
                ),
            },
        decreases scene.planes.len() - j,
    {
        let candidate = scene.planes[j].hit(ray, t_min, limit);
        proof {
            assert(scene.planes@.take(j + 1).drop_last() =~= scene.planes@.take(j as int));
            assert(scene.planes@.take(j + 1).last() == scene.planes@[j as int]);
            lemma_plane_limit(scene.planes[j as int], *ray, t_min);
        }
        match candidate {
            Some(h) => {
                picked = Some(Object::Plane(j));
                limit = h.travel;
                proof {
                    best = Closest { limit: h.travel, hit: Some(h) };
                }
            },
            None => {},
        }
        j = j + 1;
    }
    proof {
        assert(scene.planes@.take(scene.planes.len() as int) =~= scene.planes@);
        assert(spec_first_hit(scene, *ray) == best.hit);
        if picked is None {
            assert forall|i: int| 0 <= i < scene.spheres.len() implies limit_cuts(
                #[trigger] scene.spheres@[i],
                *ray,
                t_min,
            ) by {
                lemma_sphere_limit(scene.spheres@[i], *ray, t_min);
            }
            assert forall|j: int| 0 <= j < scene.planes.len() implies limit_cuts(
                #[trigger] scene.planes@[j],
                *ray,
                t_min,
            ) by {
                lemma_plane_limit(scene.planes@[j], *ray, t_min);
            }
            lemma_closest_among(scene.spheres@, *ray, t_min, start);
            lemma_closest_among(scene.planes@, *ray, t_min, start);
            assert forall|i: int| 0 <= i < scene.spheres.len() implies (
            #[trigger] scene.spheres[i].spec_hit(*ray, t_min, t_max)) is None by {
                assert(free_hit(scene.spheres@[i], *ray, t_min) is None);
            }
            assert forall|j: int| 0 <= j < scene.planes.len() implies (
            #[trigger] scene.planes[j].spec_hit(*ray, t_min, t_max)) is None by {
                assert(free_hit(scene.planes@[j], *ray, t_min) is None);
            }
        }
    }
    picked
}

/// Whether a sphere cannot be met as a sphere: its radius is not positive.
pub open spec fn sphere_is_degenerate(sphere: crate::render::hittable::Sphere) -> bool {
    sphere.radius.raw <= 0
}

/// Whether a plane has no direction: its normal is the zero vector.
pub open spec fn plane_is_degenerate(plane: crate::render::hittable::Plane) -> bool {
    plane.normal.stored().0.is_zero()
}

/// Whether `found` is the first degenerate object of the scene, spheres
/// before planes, or nothing where no object is degenerate.
pub open spec fn is_first_degenerate(scene: &Scene, found: Option<Object>) -> bool {
    match found {
        Some(Object::Sphere(i)) => {
            &&& i < scene.spheres.len()
            &&& sphere_is_degenerate(scene.spheres[i as int])
            &&& forall|k: int| 0 <= k < i ==> !sphere_is_degenerate(#[trigger] scene.spheres[k])
        },
        Some(Object::Plane(j)) => {
            &&& j < scene.planes.len()
            &&& plane_is_degenerate(scene.planes[j as int])
            &&& forall|k: int| 0 <= k < j ==> !plane_is_degenerate(#[trigger] scene.planes[k])
            &&& forall|k: int|
                0 <= k < scene.spheres.len() ==> !sphere_is_degenerate(
                    #[trigger] scene.spheres[k],
                )
        },
        None => {
            &&& forall|k: int|
                0 <= k < scene.spheres.len() ==> !sphere_is_degenerate(
                    #[trigger] scene.spheres[k],
                )
            &&& forall|k: int|
                0 <= k < scene.planes.len() ==> !plane_is_degenerate(#[trigger] scene.planes[k])
        },
    }
}

/// The first object of the scene that no ray can meet in a sound way: a
/// sphere whose radius is not positive, or a plane without a direction. A
/// scene is fit for rendering when there is none.
pub fn first_degenerate(scene: &Scene) -> (found: Option<Object>)
    ensures
        is_first_degenerate(scene, found),
{
    let mut i: usize = 0;
    while i < scene.spheres.len()
        invariant
            i <= scene.spheres.len(),
            forall|k: int| 0 <= k < i ==> !sphere_is_degenerate(#[trigger] scene.spheres[k]),
        decreases scene.spheres.len() - i,
    {
        if scene.spheres[i].radius.raw <= 0 {
            return Some(Object::Sphere(i));
        }
        i = i + 1;
    }
    let mut j: usize = 0;
    while j < scene.planes.len()
        invariant
            j <= scene.planes.len(),
            forall|k: int|
                0 <= k < scene.spheres.len() ==> !sphere_is_degenerate(
                    #[trigger] scene.spheres[k],
                ),
            forall|k: int| 0 <= k < j ==> !plane_is_degenerate(#[trigger] scene.planes[k]),
        decreases scene.planes.len() - j,
    {
        let stored = match scene.planes[j].normal {
            crate::types::normal::Normal::Inward(v) => v,
            crate::types::normal::Normal::Outward(v) => v,
        };
        let n = stored.get();
        if n.x.raw == 0 && n.y.raw == 0 && n.z.raw == 0 {
            return Some(Object::Plane(j));
        }
        j = j + 1;
    }
    None
}

/// The ray through the place `(x, y)` of the shown image, in pixels from its
/// upper left corner.
pub open spec fn spec_screen_ray(camera: Camera, canvas: Canvas, x: Scalar, y: Scalar) -> Ray {
    camera.spec_get_ray(
        x.spec_div(Scalar::spec_from_count(canvas.width)),
        Scalar::spec_from_count(canvas.height).spec_sub(y).spec_div(
            Scalar::spec_from_count(canvas.height),
        ),
    )
}

/// The object that is seen at the place `(x, y)` of the shown image.
pub fn pick_at(scene: &Scene, camera: &Camera, canvas: &Canvas, x: Scalar, y: Scalar) -> (picked:
    Option<Object>)
    ensures
        is_picked(scene, spec_screen_ray(*camera, *canvas, x, y), picked),
{
    let width = Scalar::from_count(canvas.width);
    let height = Scalar::from_count(canvas.height);
    let ray = camera.get_ray(x.div(width), height.sub(y).div(height));
    get_hit_object(scene, &ray)
}

/// The object that is selected once the object at position `index` of
/// `count` objects is gone: the one that took its place, or the last one, or
/// none where none is left.
pub open spec fn spec_neighbour(index: usize, count: nat) -> Option<usize> {
    if count == 1 {
        None
    } else if index < count - 1 {
        Some(index)
    } else {
        Some((count - 2) as usize)
    }
}

/// Takes `object` out of the scene and says which object of its kind is
/// selected in its place.
pub fn remove_object(scene: &mut Scene, object: Object) -> (selected: Option<Object>)
    requires
        match object {
            Object::Sphere(i) => i < old(scene).spheres.len(),
            Object::Plane(j) => j < old(scene).planes.len(),
        },
    ensures
        final(scene).background == old(scene).background,
        match object {
            Object::Sphere(i) => {
                &&& final(scene).spheres@ == old(scene).spheres@.remove(i as int)
                &&& final(scene).planes@ == old(scene).planes@
                &&& selected == match spec_neighbour(i, old(scene).spheres.len() as nat) {
                    Some(k) => Some(Object::Sphere(k)),
                    None => None,
                }
            },
            Object::Plane(j) => {
                &&& final(scene).planes@ == old(scene).planes@.remove(j as int)
                &&& final(scene).spheres@ == old(scene).spheres@
                &&& selected == match spec_neighbour(j, old(scene).planes.len() as nat) {
                    Some(k) => Some(Object::Plane(k)),
                    None => None,
                }
            },
        },
{
    match object {
        Object::Sphere(i) => {
            scene.spheres.remove(i);
            let left = scene.spheres.len();
            if left == 0 {
                None
            } else if i < left {
                Some(Object::Sphere(i))
            } else {
                Some(Object::Sphere(left - 1))
            }
        },
        Object::Plane(j) => {
            scene.planes.remove(j);
            let left = scene.planes.len();
            if left == 0 {
                None
            } else if j < left {
                Some(Object::Plane(j))
            } else {
                Some(Object::Plane(left - 1))
            }
        },
    }
}

} // verus!
