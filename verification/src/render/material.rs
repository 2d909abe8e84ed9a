//! What a surface does to a ray that meets it.
use vstd::prelude::*;

use crate::math::{dot, same_orientation, spec_dot, spec_same_orientation};
use crate::physics::{reflect, refract, spec_reflect, spec_refract};
use crate::render::color::Color;
use crate::render::colorer::Colorer;
use crate::render::hittable::Hit;
use crate::render::ray::Ray;
use crate::rng::RowRng;
use crate::scalar::{Scalar, ONE_RAW};
use crate::types::normal::Normal;
use crate::types::vec3::UnitVec3;

verus! {

/// A path that goes on: the next ray, and the share of its light that is kept.
#[derive(Clone, Copy, Debug, PartialEq, Eq, Structural)]
pub struct Bounce {
    pub scattered: Ray,
    pub attenuation: Color,
}

/// A path that ends in a light: the light's colour.
#[derive(Clone, Copy, Debug, PartialEq, Eq, Structural)]
pub struct Source {
    pub color: Color,
}

/// The outcome of a ray meeting a surface.
#[derive(Clone, Copy, Debug, PartialEq, Eq, Structural)]
pub enum Interaction {
    Source(Source),
    Bounce(Bounce),
    /// The ray is absorbed.
    Nothing,
}

impl Interaction {
    pub fn bounce(scattered: Ray, attenuation: Color) -> (r: Interaction)
        ensures
            r == Interaction::Bounce(Bounce { scattered, attenuation }),
    {
        Interaction::Bounce(Bounce { scattered, attenuation })
    }

    pub fn source(color: Color) -> (r: Interaction)
        ensures
            r == Interaction::Source(Source { color }),
    {
        Interaction::Source(Source { color })
    }
}

/// The kinds of surface.
#[derive(Clone, Copy, Debug, PartialEq, Eq, Structural)]
pub enum Material {
    Diffuse(Colorer),
    Metal { colorer: Colorer, fuzz: Scalar },
    Dielectric { refraction_index: Scalar, colorer: Colorer },
    Light(Colorer),
}

/// The ratio of refraction indices that a ray meets at a normal: the
/// reciprocal of `index` when it leaves the medium.
pub open spec fn spec_refraction_ratio(normal: Normal, index: Scalar) -> Scalar {
    match normal {
        Normal::Inward(_) => (Scalar { raw: ONE_RAW }).spec_div(index),
        Normal::Outward(_) => index,
    }
}

/// Whether a ray along `direction` can cross the surface: the ratio times the
/// sine of the angle of incidence does not exceed one.
pub open spec fn spec_can_refract(direction: UnitVec3, outward: UnitVec3, ratio: Scalar) -> bool {
    let cos_theta = spec_dot(direction.0.spec_neg(), outward.0);
    let sin_theta = (Scalar { raw: ONE_RAW }).spec_sub(cos_theta.spec_mul(cos_theta)).spec_sqrt();
    ratio.spec_mul(sin_theta).raw <= ONE_RAW
}

impl Material {
    pub open spec fn spec_get_colorer(self) -> Colorer {
        match self {
            Material::Diffuse(colorer) => colorer,
            Material::Metal { colorer, .. } => colorer,
            Material::Dielectric { colorer, .. } => colorer,
            Material::Light(colorer) => colorer,
        }
    }

    /// Whether scattering on this material draws a random direction.
    pub open spec fn draws_direction(self) -> bool {
        self is Diffuse || self is Metal
    }

    /// What becomes of `ray` at `hit`, given the random direction `random`
    /// (which only a diffuse or a metal surface looks at).
    pub open spec fn spec_scatter(self, ray: Ray, hit: Hit, random: UnitVec3) -> Interaction {
        let outward = hit.normal.spec_outward();
        match self {
            Material::Diffuse(colorer) => Interaction::Bounce(
                Bounce {
                    scattered: Ray {
                        origin: hit.point,
                        direction: outward.0.spec_add(random.0),
                    },
                    attenuation: colorer.spec_color(hit.normal),
                },
            ),
            Material::Metal { colorer, fuzz } => {
                let direction = spec_reflect(ray.direction.spec_unit(), outward).spec_add(
                    random.0.spec_scale(fuzz),
                );
                if spec_same_orientation(direction, outward.0) {
                    Interaction::Bounce(
                        Bounce {
                            scattered: Ray { origin: hit.point, direction },
                            attenuation: colorer.spec_color(hit.normal),
                        },
                    )
                } else {
                    Interaction::Nothing
                }
            },
            Material::Dielectric { refraction_index, colorer } => {
                let ratio = spec_refraction_ratio(hit.normal, refraction_index);
                let unit_direction = ray.direction.spec_unit();
                let direction = if spec_can_refract(unit_direction, outward, ratio) {
                    spec_refract(unit_direction, outward, ratio)
                } else {
                    spec_reflect(unit_direction, outward)
                };
                Interaction::Bounce(
                    Bounce {
                        scattered: Ray { origin: hit.point, direction },
                        attenuation: colorer.spec_color(hit.normal),
                    },
                )
            },
            Material::Light(colorer) => Interaction::Source(
                Source { color: colorer.spec_color(hit.normal) },
            ),
        }
    }

    /// What becomes of `ray` at `hit` when the random direction is `random`.
    /// A light always ends the path with its colour, a diffuse and a
    /// dielectric surface always send the ray on, and a ray that goes on
    /// starts at the hit and is attenuated by the surface's colour there.
    pub fn scatter_with(&self, ray: &Ray, hit: &Hit, random: &UnitVec3) -> (r: Interaction)
        ensures
            r == self.spec_scatter(*ray, *hit, *random),
            self is Light ==> r == Interaction::Source(
                Source { color: self.spec_get_colorer().spec_color(hit.normal) },
            ),
            self is Diffuse || self is Dielectric ==> r is Bounce,
            !(self is Light) ==> !(r is Source),
            r matches Interaction::Bounce(b) ==> b.scattered.origin == hit.point && b.attenuation
                == self.spec_get_colorer().spec_color(hit.normal),
    {
        match self {
            Material::Diffuse(colorer) => {
                let direction = hit.normal.outward().get().add(*random.get());
                let scattered = Ray { origin: hit.point, direction };
                Interaction::bounce(scattered, colorer.color(hit))
            },
            Material::Metal { colorer, fuzz } => {
                let outward = hit.normal.outward();
                let reflected = reflect(&ray.direction.unit(), &outward);
                let direction = reflected.add(random.get().scale(*fuzz));
                let scattered = Ray { origin: hit.point, direction };
                if same_orientation(&scattered.direction, outward.get()) {
                    Interaction::bounce(scattered, colorer.color(hit))
                } else {
                    Interaction::Nothing
                }
            },
            Material::Dielectric { refraction_index, colorer } => {
                let ratio = match hit.normal {
                    Normal::Inward(_) => Scalar::one().div(*refraction_index),
                    Normal::Outward(_) => *refraction_index,
                };
                let unit_direction = ray.direction.unit();
                let outward = hit.normal.outward();
                let cos_theta = dot(&unit_direction.get().neg(), outward.get());
                let sin_theta = Scalar::one().sub(cos_theta.mul(cos_theta)).sqrt();
                let can_refract = ratio.mul(sin_theta).raw <= ONE_RAW;
                let direction = if can_refract {
                    refract(&unit_direction, &outward, ratio)
                } else {
                    reflect(&unit_direction, &outward)
                };
                let scattered = Ray { origin: hit.point, direction };
                Interaction::bounce(scattered, colorer.color(hit))
            },
            Material::Light(colorer) => Interaction::source(colorer.color(hit)),
        }
    }

    /// What becomes of `ray` at `hit`. A diffuse or a metal surface draws one
    /// random direction from `rng`; the others leave it untouched.
    pub fn scatter(&self, ray: &Ray, hit: &Hit, rng: &mut RowRng) -> (r: Interaction)
        ensures
            final(rng).seed() == old(rng).seed(),
            !self.draws_direction() ==> final(rng).log() == old(rng).log() && forall|any: UnitVec3|
                r == #[trigger] self.spec_scatter(*ray, *hit, any),
            self.draws_direction() ==> final(rng).log().len() == old(rng).log().len() + 3
                && final(rng).log().take(old(rng).log().len() as int) == old(rng).log() && r
                == self.spec_scatter(
                *ray,
                *hit,
                UnitVec3::spec_from_draws(
                    final(rng).log()[old(rng).log().len() as int],
                    final(rng).log()[old(rng).log().len() + 1 as int],
                    final(rng).log()[old(rng).log().len() + 2 as int],
                ),
            ),
    {
        match self {
            Material::Diffuse(_) => {
                let random = UnitVec3::random(rng);
                self.scatter_with(ray, hit, &random)
            },
            Material::Metal { .. } => {
                let random = UnitVec3::random(rng);
                self.scatter_with(ray, hit, &random)
            },
            _ => {
                // no direction is drawn where none is looked at
                let unused = UnitVec3::unchecked_from(&ray.direction);
                self.scatter_with(ray, hit, &unused)
            },
        }
    }

    /// What the kinds of surface do: a light always ends the path with its
    /// colour, a diffuse and a dielectric surface always send the ray on, and
    /// a ray that goes on starts at the hit and is attenuated by the
    /// surface's colour there.
    pub proof fn lemma_scatter_kinds(self, ray: Ray, hit: Hit, random: UnitVec3)
        ensures
            self is Light ==> self.spec_scatter(ray, hit, random) == Interaction::Source(
                Source { color: self.spec_get_colorer().spec_color(hit.normal) },
            ),
            self is Diffuse || self is Dielectric ==> self.spec_scatter(ray, hit, random) is Bounce,
            !(self is Light) ==> !(self.spec_scatter(ray, hit, random) is Source),
            self.spec_scatter(ray, hit, random) matches Interaction::Bounce(b)
                ==> b.scattered.origin == hit.point && b.attenuation
                == self.spec_get_colorer().spec_color(hit.normal),
    {
    }

    pub fn get_colorer(&self) -> (c: Colorer)
        ensures
            c == self.spec_get_colorer(),
    {
        match self {
            Material::Diffuse(colorer) => *colorer,
            Material::Metal { colorer, .. } => *colorer,
            Material::Dielectric { colorer, .. } => *colorer,
            Material::Light(colorer) => *colorer,
        }
    }
}

} // verus!
