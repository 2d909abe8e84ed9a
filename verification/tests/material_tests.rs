use keyell::render::{
    Bounce, Color, Colorer, Hit, Interaction, Material, Ray, Source,
};
use keyell::rng::RowRng;
use keyell::scalar::{Scalar, ONE_RAW};
use keyell::types::{Normal, Point, UnitVec3, Vec3};

fn ratio(n: i64, d: i64) -> Scalar {
    Scalar::from_ratio(n, d)
}

fn whole(n: i32) -> Scalar {
    Scalar::from_int(n)
}

fn v(x: i32, y: i32, z: i32) -> Vec3 {
    Vec3::new(whole(x), whole(y), whole(z))
}

fn direction(x: i32, y: i32, z: i32) -> UnitVec3 {
    UnitVec3::unchecked_from(&v(x, y, z))
}

fn tint() -> Color {
    Color::new(ratio(9, 10), ratio(2, 10), ratio(3, 10))
}

fn hit_with(normal: Normal, material: Material) -> Hit {
    Hit { travel: whole(1), point: Point::new(whole(1), whole(2), whole(3)), normal, material }
}

fn incoming(x: i32, y: i32, z: i32) -> Ray {
    Ray { origin: Point::new(whole(0), whole(0), whole(9)), direction: v(x, y, z) }
}

fn bounce_of(interaction: Interaction) -> Bounce {
    match interaction {
        Interaction::Bounce(b) => b,
        _ => panic!("the ray did not go on"),
    }
}

#[test]
fn interaction_constructors() {
    let ray = incoming(0, 0, -1);
    assert_eq!(
        Interaction::bounce(ray, tint()),
        Interaction::Bounce(Bounce { scattered: ray, attenuation: tint() })
    );
    assert_eq!(Interaction::source(tint()), Interaction::Source(Source { color: tint() }));
}

#[test]
fn colorer_of_each_material() {
    let c = Colorer::Solid(tint());
    assert_eq!(Material::Diffuse(c).get_colorer(), c);
    assert_eq!(Material::Metal { colorer: c, fuzz: whole(1) }.get_colorer(), c);
    assert_eq!(Material::Dielectric { refraction_index: whole(1), colorer: c }.get_colorer(), c);
    assert_eq!(Material::Light(Colorer::Bubblegum).get_colorer(), Colorer::Bubblegum);
}

#[test]
fn light_ends_the_path_with_its_colour() {
    let material = Material::Light(Colorer::Solid(tint()));
    let hit = hit_with(Normal::Outward(direction(0, 0, 1)), material);
    let got = material.scatter_with(&incoming(0, 0, -1), &hit, &direction(1, 0, 0));
    assert_eq!(got, Interaction::Source(Source { color: tint() }));
}

#[test]
fn diffuse_sends_the_ray_along_normal_plus_random() {
    let material = Material::Diffuse(Colorer::Solid(tint()));
    let hit = hit_with(Normal::Outward(direction(0, 0, 1)), material);
    let got = bounce_of(material.scatter_with(&incoming(0, 0, -1), &hit, &direction(1, 0, 0)));
    assert_eq!(got.scattered.origin, hit.point);
    assert_eq!(got.scattered.direction, v(1, 0, 1));
    assert_eq!(got.attenuation, tint());
    let inward = hit_with(Normal::Inward(direction(0, 0, 1)), material);
    let got = bounce_of(material.scatter_with(&incoming(0, 0, 1), &inward, &direction(0, 1, 0)));
    assert_eq!(got.scattered.direction, v(0, 1, -1));
}

#[test]
fn polished_metal_mirrors_the_ray() {
    let material = Material::Metal { colorer: Colorer::Solid(tint()), fuzz: whole(0) };
    let hit = hit_with(Normal::Outward(direction(0, 0, 1)), material);
    let ray = incoming(1, 0, -1);
    let got = bounce_of(material.scatter_with(&ray, &hit, &direction(0, 1, 0)));
    let u = ray.direction.unit();
    assert_eq!(got.scattered.origin, hit.point);
    assert_eq!(got.scattered.direction, Vec3::new(u.get().x, whole(0), u.get().z.neg()));
    assert_eq!(got.attenuation, tint());
}

#[test]
fn fuzzy_metal_adds_the_scaled_random_direction() {
    let material = Material::Metal { colorer: Colorer::Solid(tint()), fuzz: ratio(1, 2) };
    let hit = hit_with(Normal::Outward(direction(0, 0, 1)), material);
    let got = bounce_of(material.scatter_with(&incoming(0, 0, -1), &hit, &direction(0, 1, 0)));
    assert_eq!(got.scattered.direction, Vec3::new(whole(0), ratio(1, 2), whole(1)));
}

#[test]
fn metal_absorbs_a_ray_that_would_enter_the_surface() {
    let material = Material::Metal { colorer: Colorer::Solid(tint()), fuzz: whole(2) };
    let hit = hit_with(Normal::Outward(direction(0, 0, 1)), material);
    let got = material.scatter_with(&incoming(0, 0, -1), &hit, &direction(0, 0, -1));
    assert_eq!(got, Interaction::Nothing);
    // a direction along the surface is absorbed too
    let grazing = Material::Metal { colorer: Colorer::Solid(tint()), fuzz: whole(1) };
    let got = grazing.scatter_with(&incoming(0, 0, -1), &hit, &direction(0, 0, -1));
    assert_eq!(got, Interaction::Nothing);
}

#[test]
fn dielectric_lets_a_perpendicular_ray_through() {
    let material =
        Material::Dielectric { refraction_index: ratio(3, 2), colorer: Colorer::Solid(tint()) };
    let entering = hit_with(Normal::Outward(direction(0, 0, 1)), material);
    let got = bounce_of(material.scatter_with(&incoming(0, 0, -1), &entering, &direction(1, 0, 0)));
    assert_eq!(got.scattered.origin, entering.point);
    assert_eq!(got.scattered.direction, v(0, 0, -1));
    assert_eq!(got.attenuation, tint());
    let leaving = hit_with(Normal::Inward(direction(0, 0, -1)), material);
    let got = bounce_of(material.scatter_with(&incoming(0, 0, -1), &leaving, &direction(1, 0, 0)));
    assert_eq!(got.scattered.direction, v(0, 0, -1));
}

#[test]
fn dielectric_scales_the_part_across_the_normal_by_the_ratio() {
    let ray = incoming(1, 0, -1);
    let u = ray.direction.unit();
    let along = |index: Scalar, normal: Normal| {
        let material =
            Material::Dielectric { refraction_index: index, colorer: Colorer::Solid(tint()) };
        bounce_of(material.scatter_with(&ray, &hit_with(normal, material), &direction(1, 0, 0)))
            .scattered
            .direction
    };
    // entering: the ratio is the index
    let bent = along(ratio(6, 5), Normal::Outward(direction(0, 0, 1)));
    assert!((bent.x.raw - ratio(6, 5).mul(u.get().x).raw).abs() <= 8);
    assert!(bent.z.raw < 0);
    // leaving: the ratio is the reciprocal of the index
    let bent = along(whole(2), Normal::Inward(direction(0, 0, -1)));
    assert!((bent.x.raw - ratio(1, 2).mul(u.get().x).raw).abs() <= 8);
    assert!(bent.z.raw < 0);
}

#[test]
fn dielectric_mirrors_the_ray_on_total_internal_reflection() {
    let material =
        Material::Dielectric { refraction_index: whole(2), colorer: Colorer::Solid(tint()) };
    let hit = hit_with(Normal::Outward(direction(0, 0, 1)), material);
    let ray = incoming(1, 0, -1);
    let got = bounce_of(material.scatter_with(&ray, &hit, &direction(0, 1, 0)));
    let u = ray.direction.unit();
    assert!((got.scattered.direction.x.raw - u.get().x.raw).abs() <= 8);
    assert!((got.scattered.direction.z.raw + u.get().z.raw).abs() <= 8);
    assert!(got.scattered.direction.z.raw > 0);
    assert_eq!(got.attenuation, tint());
}

#[test]
fn scattering_draws_only_for_diffuse_and_metal() {
    let hit = |m: Material| hit_with(Normal::Outward(direction(0, 0, 1)), m);
    let ray = incoming(0, 0, -1);
    let drawing = [
        Material::Diffuse(Colorer::Solid(tint())),
        Material::Metal { colorer: Colorer::Solid(tint()), fuzz: ratio(1, 10) },
    ];
    for material in drawing {
        let mut rng = RowRng::for_row(7);
        let mut fresh = RowRng::for_row(7);
        let got = material.scatter(&ray, &hit(material), &mut rng);
        let random = UnitVec3::random(&mut fresh);
        assert_eq!(got, material.scatter_with(&ray, &hit(material), &random));
        assert_eq!(rng.unit_interval(), fresh.unit_interval());
    }
    let still = [
        Material::Light(Colorer::Solid(tint())),
        Material::Dielectric { refraction_index: ratio(3, 2), colorer: Colorer::Solid(tint()) },
    ];
    for material in still {
        let mut rng = RowRng::for_row(7);
        let mut fresh = RowRng::for_row(7);
        let got = material.scatter(&ray, &hit(material), &mut rng);
        assert_eq!(got, material.scatter_with(&ray, &hit(material), &direction(1, 0, 0)));
        assert_eq!(rng.unit_interval(), fresh.unit_interval());
    }
}

#[test]
fn solid_colorer_is_constant() {
    let c = Colorer::Solid(tint());
    let up = hit_with(Normal::Outward(direction(0, 0, 1)), Material::Diffuse(c));
    let down = hit_with(Normal::Inward(direction(1, 0, 0)), Material::Diffuse(c));
    assert_eq!(c.color(&up), tint());
    assert_eq!(c.color(&down), tint());
}

#[test]
fn gradient_blends_by_the_height_of_the_outward_normal() {
    let top = Color::new(ratio(1, 2), ratio(7, 10), whole(1));
    let bottom = Color::new(ratio(1, 10), whole(0), ratio(3, 10));
    let c = Colorer::ZGradient { bottom, top };
    let at = |normal: Normal| c.color(&hit_with(normal, Material::Light(c)));
    assert_eq!(at(Normal::Outward(direction(0, 0, 1))), top);
    assert_eq!(at(Normal::Outward(direction(0, 0, -1))), bottom);
    assert_eq!(at(Normal::Inward(direction(0, 0, -1))), top);
    assert_eq!(at(Normal::Inward(direction(0, 0, 1))), bottom);
    let middle = at(Normal::Outward(direction(1, 0, 0)));
    assert_eq!(
        middle,
        Color::new(
            ratio(1, 2).mul(top.r).add(ratio(1, 2).mul(bottom.r)),
            ratio(1, 2).mul(top.g).add(ratio(1, 2).mul(bottom.g)),
            ratio(1, 2).mul(top.b).add(ratio(1, 2).mul(bottom.b)),
        )
    );
    assert!((middle.r.raw - ratio(3, 10).raw).abs() <= 4);
    assert!((middle.g.raw - ratio(35, 100).raw).abs() <= 4);
    assert!((middle.b.raw - ratio(65, 100).raw).abs() <= 4);
}

#[test]
fn bubblegum_follows_the_stored_normal() {
    let c = Colorer::Bubblegum;
    let stored = UnitVec3::unchecked_from(&Vec3::new(whole(0), ratio(1, 2), whole(1)));
    let want = Color::new(ratio(1, 2), whole(1), ratio(1, 2));
    assert_eq!(c.color(&hit_with(Normal::Outward(stored), Material::Diffuse(c))), want);
    assert_eq!(c.color(&hit_with(Normal::Inward(stored), Material::Diffuse(c))), want);
    let other = UnitVec3::unchecked_from(&Vec3::new(ratio(-1, 2), ratio(3, 2), whole(-1)));
    let want = Color::new(whole(0), whole(0), ratio(1, 2));
    assert_eq!(c.color(&hit_with(Normal::Outward(other), Material::Diffuse(c))), want);
}

#[test]
fn bubblegum_channels_stay_between_zero_and_one() {
    let c = Colorer::Bubblegum;
    for k in -40..=40 {
        let n = UnitVec3::unchecked_from(&Vec3::new(ratio(k, 17), ratio(k, 5), ratio(-k, 3)));
        let got = c.color(&hit_with(Normal::Outward(n), Material::Diffuse(c)));
        for channel in [got.r, got.g, got.b] {
            assert!(0 <= channel.raw && channel.raw <= ONE_RAW);
        }
    }
}

#[test]
fn colour_arithmetic() {
    let a = Color::new(ratio(1, 2), ratio(1, 4), whole(1));
    let b = Color::new(ratio(1, 2), whole(2), whole(0));
    assert_eq!(a.add(b), Color::new(whole(1), ratio(9, 4), whole(1)));
    assert_eq!(a.mul(b), Color::new(ratio(1, 4), ratio(1, 2), whole(0)));
    assert_eq!(a.scale(whole(2)), Color::new(whole(1), ratio(1, 2), whole(2)));
    assert_eq!(a.div(whole(2)), Color::new(ratio(1, 4), ratio(1, 8), ratio(1, 2)));
    assert_eq!(Color::grey(ratio(1, 3)), Color::new(ratio(1, 3), ratio(1, 3), ratio(1, 3)));
    assert_eq!(Color::black(), Color::new(whole(0), whole(0), whole(0)));
    assert_eq!(Color::white(), Color::new(whole(1), whole(1), whole(1)));
    assert_eq!(Color::black().div(whole(0)), Color::black());
}
