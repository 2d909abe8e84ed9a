//! The scene and its nearest hit.
use vstd::prelude::*;

use crate::render::hittable::{
    below, free_hit, lemma_plane_limit, lemma_sphere_limit, limit_cuts, strictly_within, Background,
    Hit, Hittable, Plane, Sphere,
};
use crate::render::ray::Ray;
use crate::scalar::{Scalar, INFINITY_RAW};

verus! {

/// Everything that a ray can meet: spheres, planes and one background.
#[derive(Clone, Debug)]
pub struct Scene {
    pub spheres: Vec<Sphere>,
    pub planes: Vec<Plane>,
    pub background: Background,
}

/// The search for the nearest hit in progress: the nearest hit so far, and
/// the travel that a further hit must stay below.
pub struct Closest {
    pub limit: Scalar,
    pub hit: Option<Hit>,
}

/// The search after one more object answered `candidate` to a query bounded
/// by the current limit.
pub open spec fn closer(best: Closest, candidate: Option<Hit>) -> Closest {
    match candidate {
        Some(h) => Closest { limit: h.travel, hit: Some(h) },
        None => best,
    }
}

/// The search after every object of `items` was asked in turn, each with the
/// limit that the ones before it left.
pub open spec fn closest_among<H: Hittable>(
    items: Seq<H>,
    ray: Ray,
    t_min: Scalar,
    start: Closest,
) -> Closest
    decreases items.len(),
{
    if items.len() == 0 {
        start
    } else {
        let before = closest_among(items.drop_last(), ray, t_min, start);
        closer(before, items.last().spec_hit(ray, t_min, before.limit))
    }
}

fn closest_of<H: Hittable>(items: &Vec<H>, ray: &Ray, t_min: Scalar, start: Closest) -> (r:
    Closest)
    ensures
        r == closest_among(items@, *ray, t_min, start),
{
    let mut best = start;
    let mut i: usize = 0;
    assert(items@.take(0) =~= Seq::<H>::empty());
    while i < items.len()
        invariant
            i <= items.len(),
            best == closest_among(items@.take(i as int), *ray, t_min, start),
        decreases items.len() - i,
    {
        let candidate = items[i].hit(ray, t_min, best.limit);
        proof {
            assert(items@.take(i + 1).drop_last() =~= items@.take(i as int));
            assert(items@.take(i + 1).last() == items@[i as int]);
        }
        match candidate {
            Some(h) => {
                best = Closest { limit: h.travel, hit: Some(h) };
            },
            None => {},
        }
        i = i + 1;
    }
    assert(items@.take(items.len() as int) =~= items@);
    best
}

/// Whether the search `end` came from `start` by way of an unbounded hit of
/// one of `items`.
pub open spec fn found_among<H: Hittable>(
    items: Seq<H>,
    ray: Ray,
    t_min: Scalar,
    start: Closest,
    end: Closest,
) -> bool {
    exists|i: int|
        0 <= i < items.len() && end.hit == #[trigger] free_hit(items[i], ray, t_min) && end.hit
            == Some(end.hit.unwrap()) && end.hit.unwrap().travel == end.limit && end.limit.raw
            < start.limit.raw
}

/// What the search over `items` comes to, where an upper end only cuts
/// their hits off: the limit never rises; the search either stays as it was
/// or holds the unbounded hit of one of the items, below the old limit; and
/// no item has an unbounded hit below both the old limit and the new one.
pub proof fn lemma_closest_among<H: Hittable>(
    items: Seq<H>,
    ray: Ray,
    t_min: Scalar,
    start: Closest,
)
    requires
        forall|i: int| 0 <= i < items.len() ==> limit_cuts(#[trigger] items[i], ray, t_min),
    ensures
        ({
            let end = closest_among(items, ray, t_min, start);
            &&& end.limit.raw <= start.limit.raw
            &&& end == start || found_among(items, ray, t_min, start, end)
            &&& forall|i: int|
                0 <= i < items.len() ==> (below(
                    #[trigger] free_hit(items[i], ray, t_min),
                    start.limit,
                ) matches Some(g) ==> end.limit.raw <= g.travel.raw && end != start)
        }),
    decreases items.len(),
{
    if items.len() > 0 {
        let front = items.drop_last();
        let last = items.last();
        lemma_closest_among(front, ray, t_min, start);
        let before = closest_among(front, ray, t_min, start);
        let end = closest_among(items, ray, t_min, start);
        let candidate = last.spec_hit(ray, t_min, before.limit);
        assert(limit_cuts(items[items.len() - 1], ray, t_min));
        assert(candidate == below(free_hit(last, ray, t_min), before.limit));
        assert(end == closer(before, candidate));
        if candidate is Some {
            assert(end.hit == free_hit(items[items.len() - 1], ray, t_min));
            assert(found_among(items, ray, t_min, start, end));
        } else if before != start {
            let i = choose|i: int|
                0 <= i < front.len() && before.hit == #[trigger] free_hit(front[i], ray, t_min)
                    && before.hit == Some(before.hit.unwrap()) && before.hit.unwrap().travel
                    == before.limit && before.limit.raw < start.limit.raw;
            assert(front[i] == items[i]);
            assert(end.hit == free_hit(items[i], ray, t_min));
            assert(found_among(items, ray, t_min, start, end));
        }
        assert forall|i: int| 0 <= i < items.len() implies (below(
            #[trigger] free_hit(items[i], ray, t_min),
            start.limit,
        ) matches Some(g) ==> end.limit.raw <= g.travel.raw && end != start) by {
            if i < front.len() {
                assert(front[i] == items[i]);
            }
        }
    }
}

/// Whether `h` is the hit that a sphere or a plane of the scene gives on its
/// own to the query from `t_min` to `t_max`.
pub open spec fn is_object_hit(
    scene: &Scene,
    ray: Ray,
    t_min: Scalar,
    t_max: Scalar,
    h: Hit,
) -> bool {
    ||| exists|i: int|
        0 <= i < scene.spheres.len() && Some(h) == #[trigger] scene.spheres[i].spec_hit(
            ray,
            t_min,
            t_max,
        )
    ||| exists|j: int|
        0 <= j < scene.planes.len() && Some(h) == #[trigger] scene.planes[j].spec_hit(
            ray,
            t_min,
            t_max,
        )
}

/// The hit of a scene is the nearest of all. No sphere and no plane gives,
/// on its own, a hit with a smaller travel, whatever the order in which the
/// objects stand in the scene. The hit is the own hit of a sphere or a plane,
/// strictly inside the interval, or else the hit of the background, which
/// comes only when no sphere and no plane is hit.
pub proof fn lemma_scene_hit_is_nearest(scene: &Scene, ray: Ray, t_min: Scalar, t_max: Scalar)
    ensures
        forall|i: int|
            0 <= i < scene.spheres.len() ==> (#[trigger] scene.spheres[i].spec_hit(
                ray,
                t_min,
                t_max,
            ) matches Some(g) ==> (scene.spec_hit(ray, t_min, t_max) matches Some(h)
                && h.travel.raw <= g.travel.raw)),
        forall|j: int|
            0 <= j < scene.planes.len() ==> (#[trigger] scene.planes[j].spec_hit(
                ray,
                t_min,
                t_max,
            ) matches Some(g) ==> (scene.spec_hit(ray, t_min, t_max) matches Some(h)
                && h.travel.raw <= g.travel.raw)),
        scene.spec_hit(ray, t_min, t_max) matches Some(h) ==> {
            ||| is_object_hit(scene, ray, t_min, t_max, h) && strictly_within(
                h.travel,
                t_min,
                t_max,
            )
            ||| Some(h) == scene.background.spec_hit(ray, t_min, t_max) && h.travel == t_max
                && t_max.is_infinite()
        },
        scene.spec_hit(ray, t_min, t_max) is None ==> !t_max.is_infinite(),
{
    let start = Closest { limit: t_max, hit: scene.background.spec_hit(ray, t_min, t_max) };
    let spheres = scene.spheres@;
    let planes = scene.planes@;
    assert forall|i: int| 0 <= i < spheres.len() implies limit_cuts(
        #[trigger] spheres[i],
        ray,
        t_min,
    ) by {
        lemma_sphere_limit(spheres[i], ray, t_min);
    }
    assert forall|j: int| 0 <= j < planes.len() implies limit_cuts(
        #[trigger] planes[j],
        ray,
        t_min,
    ) by {
        lemma_plane_limit(planes[j], ray, t_min);
    }
    lemma_closest_among(spheres, ray, t_min, start);
    let middle = closest_among(spheres, ray, t_min, start);
    lemma_closest_among(planes, ray, t_min, middle);
    let end = closest_among(planes, ray, t_min, middle);
    assert(scene.spec_hit(ray, t_min, t_max) == end.hit);
    assert forall|i: int| 0 <= i < scene.spheres.len() implies (
    #[trigger] scene.spheres[i].spec_hit(ray, t_min, t_max) matches Some(g) ==> (end.hit matches Some(h) && h.travel.raw <= g.travel.raw)) by {
        let own = spheres[i].spec_hit(ray, t_min, t_max);
        assert(own == below(free_hit(spheres[i], ray, t_min), start.limit));
        if own is Some {
            assert(middle != start);
            assert(found_among(spheres, ray, t_min, start, middle));
            if end != middle {
                assert(found_among(planes, ray, t_min, middle, end));
            }
        }
    }
    assert forall|j: int| 0 <= j < scene.planes.len() implies (#[trigger] scene.planes[j].spec_hit(
        ray,
        t_min,
        t_max,
    ) matches Some(g) ==> (end.hit matches Some(h) && h.travel.raw <= g.travel.raw)) by {
        let own = planes[j].spec_hit(ray, t_min, t_max);
        let free = free_hit(planes[j], ray, t_min);
        assert(own == below(free, t_max));
        if own is Some {
            let g = own.unwrap();
            if g.travel.raw < middle.limit.raw {
                assert(below(free, middle.limit) == Some(g));
                assert(end != middle);
                assert(found_among(planes, ray, t_min, middle, end));
            } else {
                assert(middle != start);
                assert(found_among(spheres, ray, t_min, start, middle));
                if end != middle {
                    assert(found_among(planes, ray, t_min, middle, end));
                }
            }
        }
    }
    if end != middle {
        assert(found_among(planes, ray, t_min, middle, end));
        let j = choose|j: int|
            0 <= j < planes.len() && end.hit == #[trigger] free_hit(planes[j], ray, t_min)
                && end.hit == Some(end.hit.unwrap()) && end.hit.unwrap().travel == end.limit
                && end.limit.raw < middle.limit.raw;
        let h = end.hit.unwrap();
        assert(scene.planes[j].spec_hit(ray, t_min, t_max) == below(
            free_hit(planes[j], ray, t_min),
            t_max,
        ));
        assert(Some(h) == scene.planes[j].spec_hit(ray, t_min, t_max));
        assert(is_object_hit(scene, ray, t_min, t_max, h));
    } else if middle != start {
        assert(found_among(spheres, ray, t_min, start, middle));
        let i = choose|i: int|
            0 <= i < spheres.len() && middle.hit == #[trigger] free_hit(spheres[i], ray, t_min)
                && middle.hit == Some(middle.hit.unwrap()) && middle.hit.unwrap().travel
                == middle.limit && middle.limit.raw < start.limit.raw;
        let h = end.hit.unwrap();
        assert(scene.spheres[i].spec_hit(ray, t_min, t_max) == below(
            free_hit(spheres[i], ray, t_min),
            t_max,
        ));
        assert(Some(h) == scene.spheres[i].spec_hit(ray, t_min, t_max));
        assert(is_object_hit(scene, ray, t_min, t_max, h));
    }
}

/// A scene without spheres and planes answers every ray with the hit of its
/// background, at infinite travel, when the query has no upper end.
pub proof fn lemma_background_only(scene: &Scene, ray: Ray, t_min: Scalar)
    requires
        scene.spheres.len() == 0,
        scene.planes.len() == 0,
    ensures
        scene.spec_hit(ray, t_min, Scalar { raw: INFINITY_RAW }) == scene.background.spec_hit(
            ray,
            t_min,
            Scalar { raw: INFINITY_RAW },
        ),
        scene.spec_hit(ray, t_min, Scalar { raw: INFINITY_RAW }) matches Some(h)
            && h.travel.is_infinite() && h.material == scene.background.material,
{
}

impl<H: Hittable> Hittable for Vec<H> {
    /// The objects are asked in turn, each with the travel of the hit before
    /// it as its upper end.
    open spec fn spec_hit(&self, ray: Ray, t_min: Scalar, t_max: Scalar) -> Option<Hit> {
        closest_among(self@, ray, t_min, Closest { limit: t_max, hit: None }).hit
    }

    fn hit(&self, ray: &Ray, t_min: Scalar, t_max: Scalar) -> (r: Option<Hit>) {
        closest_of(self, ray, t_min, Closest { limit: t_max, hit: None }).hit
    }
}

impl Hittable for Scene {
    /// The background is asked first, then every sphere, then every plane;
    /// each hit lowers the limit for the objects that follow.
    open spec fn spec_hit(&self, ray: Ray, t_min: Scalar, t_max: Scalar) -> Option<Hit> {
        let start = Closest { limit: t_max, hit: self.background.spec_hit(ray, t_min, t_max) };
        let after_spheres = closest_among(self.spheres@, ray, t_min, start);
        closest_among(self.planes@, ray, t_min, after_spheres).hit
    }

    fn hit(&self, ray: &Ray, t_min: Scalar, t_max: Scalar) -> (r: Option<Hit>)
        ensures
            forall|i: int|
                0 <= i < self.spheres.len() ==> (#[trigger] self.spheres[i].spec_hit(
                    *ray,
                    t_min,
                    t_max,
                ) matches Some(g) ==> (r matches Some(h) && h.travel.raw <= g.travel.raw)),
            forall|j: int|
                0 <= j < self.planes.len() ==> (#[trigger] self.planes[j].spec_hit(
                    *ray,
                    t_min,
                    t_max,
                ) matches Some(g) ==> (r matches Some(h) && h.travel.raw <= g.travel.raw)),
            r matches Some(h) ==> {
                ||| is_object_hit(self, *ray, t_min, t_max, h) && strictly_within(
                    h.travel,
                    t_min,
                    t_max,
                )
                ||| Some(h) == self.background.spec_hit(*ray, t_min, t_max) && h.travel == t_max
                    && t_max.is_infinite()
            },
            r is None ==> !t_max.is_infinite(),
    {
        proof {
            lemma_scene_hit_is_nearest(self, *ray, t_min, t_max);
        }
        let start = Closest { limit: t_max, hit: self.background.hit(ray, t_min, t_max) };
        let after_spheres = closest_of(&self.spheres, ray, t_min, start);
        closest_of(&self.planes, ray, t_min, after_spheres).hit
    }
}

} // verus!
