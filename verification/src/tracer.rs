//! The path integrator: the light that arrives along a ray.
use vstd::prelude::*;

use crate::render::color::Color;
use crate::render::hittable::{Hit, Hittable};
use crate::render::material::Interaction;
use crate::render::ray::Ray;
use crate::rng::RowRng;
use crate::scalar::{Scalar, INFINITY_RAW, ONE_RAW};
use crate::scene::Scene;
use crate::types::vec3::UnitVec3;

verus! {

/// Raw value of the shortest travel that counts as a hit: 0.001, which keeps
/// a scattered ray from meeting the surface that it starts on.
pub const T_MIN_RAW: i64 = 0x41_8937;

/// The random direction that scattering at `hit` reads from the head of
/// `draws`.
pub open spec fn spec_direction_drawn(hit: Hit, draws: Seq<i64>) -> UnitVec3 {
    if hit.material.draws_direction() {
        UnitVec3::spec_from_draws(draws[0], draws[1], draws[2])
    } else {
        UnitVec3::spec_from_draws(0, 0, 0)
    }
}

/// The draws that are left after scattering at `hit`.
pub open spec fn spec_draws_left(hit: Hit, draws: Seq<i64>) -> Seq<i64> {
    if hit.material.draws_direction() {
        draws.skip(3)
    } else {
        draws
    }
}

/// The nearest hit of `ray` in `scene` beyond the shortest travel.
pub open spec fn spec_first_hit(scene: &Scene, ray: Ray) -> Option<Hit> {
    scene.spec_hit(ray, Scalar { raw: T_MIN_RAW }, Scalar { raw: INFINITY_RAW })
}

/// The colour of a hit with `bounces` bounces left, when the random numbers
/// drawn are `draws`, in this order.
pub open spec fn spec_color_hit(
    scene: &Scene,
    ray: Ray,
    hit: Hit,
    bounces: nat,
    draws: Seq<i64>,
) -> Color
    decreases bounces, 0nat,
{
    if bounces == 0 {
        Color::spec_black()
    } else {
        match hit.material.spec_scatter(ray, hit, spec_direction_drawn(hit, draws)) {
            Interaction::Bounce(b) => b.attenuation.spec_mul(
                spec_ray_color(
                    scene,
                    b.scattered,
                    (bounces - 1) as nat,
                    spec_draws_left(hit, draws),
                ),
            ),
            Interaction::Source(s) => s.color,
            Interaction::Nothing => Color::spec_black(),
        }
    }
}

/// The colour that arrives along `ray` with `bounces` bounces left: black
/// when none is left or nothing is hit, the light's colour at a light, and at
/// any other surface the attenuated colour of the scattered ray.
pub open spec fn spec_ray_color(scene: &Scene, ray: Ray, bounces: nat, draws: Seq<i64>) -> Color
    decreases bounces, 1nat,
{
    if bounces == 0 {
        Color::spec_black()
    } else {
        match spec_first_hit(scene, ray) {
            Some(hit) => spec_color_hit(scene, ray, hit, bounces, draws),
            None => Color::spec_black(),
        }
    }
}

/// How many random numbers the colour of a hit takes.
pub open spec fn spec_hit_draws(
    scene: &Scene,
    ray: Ray,
    hit: Hit,
    bounces: nat,
    draws: Seq<i64>,
) -> nat
    decreases bounces, 0nat,
{
    if bounces == 0 {
        0
    } else {
        let own: nat = if hit.material.draws_direction() {
            3
        } else {
            0
        };
        match hit.material.spec_scatter(ray, hit, spec_direction_drawn(hit, draws)) {
            Interaction::Bounce(b) => own + spec_ray_draws(
                scene,
                b.scattered,
                (bounces - 1) as nat,
                spec_draws_left(hit, draws),
            ),
            Interaction::Source(s) => own,
            Interaction::Nothing => own,
        }
    }
}

/// How many random numbers the colour of a ray takes.
pub open spec fn spec_ray_draws(scene: &Scene, ray: Ray, bounces: nat, draws: Seq<i64>) -> nat
    decreases bounces, 1nat,
{
    if bounces == 0 {
        0
    } else {
        match spec_first_hit(scene, ray) {
            Some(hit) => spec_hit_draws(scene, ray, hit, bounces, draws),
            None => 0,
        }
    }
}

/// Whether no surface of the scene can give a negative colour: no colorer
/// holds a negative channel, no sphere uses a gradient, and a plane uses one
/// only if the z component of its normal lies between minus one and one. (A
/// gradient weighs its colours by that component; the normal of the
/// background is always normalized, that of a sphere is rounded.)
pub open spec fn scene_is_non_negative(scene: &Scene) -> bool {
    &&& scene.background.material.spec_get_colorer().is_non_negative()
    &&& forall|i: int|
        0 <= i < scene.spheres.len() ==> {
            &&& (#[trigger] scene.spheres[i]).material.spec_get_colorer().is_non_negative()
            &&& !(scene.spheres[i].material.spec_get_colorer() is ZGradient)
        }
    &&& forall|j: int|
        0 <= j < scene.planes.len() ==> {
            &&& (#[trigger] scene.planes[j]).material.spec_get_colorer().is_non_negative()
            &&& scene.planes[j].material.spec_get_colorer() is ZGradient ==> -ONE_RAW
                <= scene.planes[j].normal.spec_outward().0.z.raw <= ONE_RAW
        }
}

/// The surface colour at the first hit of a ray is not negative in a scene
/// without negative colours.
pub proof fn lemma_first_hit_color_non_negative(scene: &Scene, ray: Ray)
    requires
        scene_is_non_negative(scene),
    ensures
        spec_first_hit(scene, ray) matches Some(hit) ==> hit.material.spec_get_colorer().spec_color(
            hit.normal,
        ).non_negative(),
{
    let t_min = Scalar { raw: T_MIN_RAW };
    let t_max = Scalar { raw: INFINITY_RAW };
    crate::scene::lemma_scene_hit_is_nearest(scene, ray, t_min, t_max);
    if let Some(hit) = spec_first_hit(scene, ray) {
        let colorer = hit.material.spec_get_colorer();
        if crate::scene::is_object_hit(scene, ray, t_min, t_max, hit) {
            if exists|i: int|
                0 <= i < scene.spheres.len() && Some(hit) == #[trigger] scene.spheres[i].spec_hit(
                    ray,
                    t_min,
                    t_max,
                ) {
                let i = choose|i: int|
                    0 <= i < scene.spheres.len() && Some(hit)
                        == #[trigger] scene.spheres[i].spec_hit(ray, t_min, t_max);
                assert(hit.material == scene.spheres[i].material);
            } else {
                let j = choose|j: int|
                    0 <= j < scene.planes.len() && Some(hit)
                        == #[trigger] scene.planes[j].spec_hit(ray, t_min, t_max);
                assert(hit.material == scene.planes[j].material);
                assert(hit.normal == scene.planes[j].normal);
            }
            crate::render::colorer::lemma_color_non_negative(colorer, hit.normal);
        } else {
            assert(Some(hit) == scene.background.spec_hit(ray, t_min, t_max));
            crate::types::vec3::lemma_unit_components(ray.direction.spec_neg());
            crate::render::colorer::lemma_color_non_negative(colorer, hit.normal);
        }
    }
}

/// Energy is never negative: in a scene without negative colours, no channel
/// of the colour that arrives along a ray is negative, whatever numbers are
/// drawn.
pub proof fn lemma_ray_color_non_negative(scene: &Scene, ray: Ray, bounces: nat, draws: Seq<i64>)
    requires
        scene_is_non_negative(scene),
    ensures
        spec_ray_color(scene, ray, bounces, draws).non_negative(),
    decreases bounces,
{
    if bounces > 0 {
        lemma_first_hit_color_non_negative(scene, ray);
        if let Some(hit) = spec_first_hit(scene, ray) {
            let random = spec_direction_drawn(hit, draws);
            hit.material.lemma_scatter_kinds(ray, hit, random);
            match hit.material.spec_scatter(ray, hit, random) {
                Interaction::Bounce(b) => {
                    let rest = spec_ray_color(
                        scene,
                        b.scattered,
                        (bounces - 1) as nat,
                        spec_draws_left(hit, draws),
                    );
                    lemma_ray_color_non_negative(
                        scene,
                        b.scattered,
                        (bounces - 1) as nat,
                        spec_draws_left(hit, draws),
                    );
                    crate::scalar::lemma_mul_non_negative(b.attenuation.r, rest.r);
                    crate::scalar::lemma_mul_non_negative(b.attenuation.g, rest.g);
                    crate::scalar::lemma_mul_non_negative(b.attenuation.b, rest.b);
                },
                Interaction::Source(s) => {},
                Interaction::Nothing => {},
            }
        }
    }
}

/// Whether `after` continues the record `before`.
pub open spec fn extends(after: Seq<i64>, before: Seq<i64>) -> bool {
    before.len() <= after.len() && after.take(before.len() as int) == before
}

/// The colour of `hit`, which `ray` made in `scene`, with
/// `remaining_bounces` bounces left. The result is the function
/// `spec_color_hit` of the arguments and of the numbers drawn from `rng`
/// during the call.
pub fn color_hit(
    scene: &Scene,
    ray: &Ray,
    hit: &Hit,
    remaining_bounces: usize,
    rng: &mut RowRng,
) -> (c: Color)
    ensures
        final(rng).seed() == old(rng).seed(),
        extends(final(rng).log(), old(rng).log()),
        c == spec_color_hit(
            scene,
            *ray,
            *hit,
            remaining_bounces as nat,
            final(rng).log().skip(old(rng).log().len() as int),
        ),
        final(rng).log().len() - old(rng).log().len() == spec_hit_draws(
            scene,
            *ray,
            *hit,
            remaining_bounces as nat,
            final(rng).log().skip(old(rng).log().len() as int),
        ),
        remaining_bounces == 0 ==> c == Color::spec_black(),
    decreases remaining_bounces, 0nat,
{
    if remaining_bounces == 0 {
        assert(rng.log().take(rng.log().len() as int) =~= rng.log());
        return Color::black();
    }
    let ghost log0 = rng.log();
    let interaction = hit.material.scatter(ray, hit, rng);
    let ghost log1 = rng.log();
    proof {
        if !hit.material.draws_direction() {
            assert(log1.take(log0.len() as int) =~= log0);
        }
    }
    match interaction {
        Interaction::Bounce(b) => {
            let rest = ray_color(&b.scattered, scene, remaining_bounces - 1, rng);
            proof {
                let log2 = rng.log();
                let used = log2.skip(log0.len() as int);
                assert(log2.take(log0.len() as int) =~= log1.take(log0.len() as int));
                assert(spec_draws_left(*hit, used) =~= log2.skip(log1.len() as int));
                if hit.material.draws_direction() {
                    assert(used[0] == log1[log0.len() as int]);
                    assert(used[1] == log1[log0.len() + 1 as int]);
                    assert(used[2] == log1[log0.len() + 2 as int]);
                }
            }
            b.attenuation.mul(rest)
        },
        Interaction::Source(s) => {
            proof {
                let used = log1.skip(log0.len() as int);
                if hit.material.draws_direction() {
                    assert(used[0] == log1[log0.len() as int]);
                    assert(used[1] == log1[log0.len() + 1 as int]);
                    assert(used[2] == log1[log0.len() + 2 as int]);
                }
            }
            s.color
        },
        Interaction::Nothing => {
            proof {
                let used = log1.skip(log0.len() as int);
                if hit.material.draws_direction() {
                    assert(used[0] == log1[log0.len() as int]);
                    assert(used[1] == log1[log0.len() + 1 as int]);
                    assert(used[2] == log1[log0.len() + 2 as int]);
                }
            }
            Color::black()
        },
    }
}

/// The colour that arrives along `ray` in `scene` with `remaining_bounces`
/// bounces left. The result is the function `spec_ray_color` of the arguments
/// and of the numbers drawn from `rng` during the call.
pub fn ray_color(ray: &Ray, scene: &Scene, remaining_bounces: usize, rng: &mut RowRng) -> (c:
    Color)
    ensures
        final(rng).seed() == old(rng).seed(),
        extends(final(rng).log(), old(rng).log()),
        c == spec_ray_color(
            scene,
            *ray,
            remaining_bounces as nat,
            final(rng).log().skip(old(rng).log().len() as int),
        ),
        final(rng).log().len() - old(rng).log().len() == spec_ray_draws(
            scene,
            *ray,
            remaining_bounces as nat,
            final(rng).log().skip(old(rng).log().len() as int),
        ),
        remaining_bounces == 0 ==> c == Color::spec_black(),
        scene_is_non_negative(scene) ==> c.non_negative(),
    decreases remaining_bounces, 1nat,
{
    if remaining_bounces == 0 {
        assert(rng.log().take(rng.log().len() as int) =~= rng.log());
        return Color::black();
    }
    let c = match scene.hit(ray, Scalar::from_raw(T_MIN_RAW), Scalar::infinity()) {
        Some(hit) => color_hit(scene, ray, &hit, remaining_bounces, rng),
        None => {
            assert(rng.log().take(rng.log().len() as int) =~= rng.log());
            Color::black()
        },
    };
    proof {
        if scene_is_non_negative(scene) {
            lemma_ray_color_non_negative(
                scene,
                *ray,
                remaining_bounces as nat,
                rng.log().skip(old(rng).log().len() as int),
            );
        }
    }
    c
}

} // verus!
