use keyell::editor::{
    background_colorer, nudge, renormalize, retype_colorer, retype_material, ColorerType,
    ExportParams, Key, MaterialType, PreviewState,
};
use keyell::pick::{first_degenerate, Object};
use keyell::render::{Background, Canvas, Color, Colorer, Material, Plane, Sphere};
use keyell::scalar::Scalar;
use keyell::types::{Normal, Point, UnitVec3, Vec3};
use keyell::Scene;

fn tint() -> Color {
    Color::new(Scalar::from_ratio(1, 2), Scalar::from_ratio(1, 3), Scalar::from_ratio(1, 4))
}

#[test]
fn material_of_each_kind() {
    let c = Colorer::Solid(tint());
    assert_eq!(MaterialType::Diffuse.to_material(c), Material::Diffuse(c));
    assert_eq!(
        MaterialType::Metal.to_material(c),
        Material::Metal { colorer: c, fuzz: Scalar::zero() }
    );
    assert_eq!(
        MaterialType::Dielectric.to_material(c),
        Material::Dielectric { refraction_index: Scalar::from_ratio(4, 5), colorer: c }
    );
    assert_eq!(MaterialType::Light.to_material(c), Material::Light(c));
}

#[test]
fn kind_of_each_material() {
    let c = Colorer::Bubblegum;
    let kinds =
        [MaterialType::Diffuse, MaterialType::Metal, MaterialType::Dielectric, MaterialType::Light];
    for kind in kinds {
        assert_eq!(MaterialType::from(&kind.to_material(c)), kind);
        assert_eq!(kind.to_material(c).get_colorer(), c);
    }
    let metal = Material::Metal { colorer: c, fuzz: Scalar::from_int(2) };
    assert_eq!(MaterialType::from(&metal), MaterialType::Metal);
}

#[test]
fn colorer_of_each_kind() {
    assert_eq!(
        ColorerType::ZGradient.to_colorer(tint()),
        Colorer::ZGradient { top: tint(), bottom: Color::white() }
    );
    assert_eq!(ColorerType::Solid.to_colorer(tint()), Colorer::Solid(tint()));
    assert_eq!(ColorerType::Bubblegum.to_colorer(tint()), Colorer::Bubblegum);
    for kind in [ColorerType::ZGradient, ColorerType::Solid, ColorerType::Bubblegum] {
        assert_eq!(ColorerType::from(&kind.to_colorer(tint())), kind);
    }
}

#[test]
fn settings_of_a_new_preview() {
    let preview = PreviewState::new();
    assert_eq!(preview.samples_per_pixel, 10);
    assert_eq!(preview.maximum_bounces, 10);
    assert_eq!(preview.canvas, Canvas { width: 640, height: 360 });
    assert_eq!(preview.buffer, vec![0u8; 3 * 640 * 360]);
}

#[test]
fn settings_of_a_new_export() {
    let export = ExportParams::new();
    assert!(export.remotes.is_empty());
    assert_eq!(export.samples_per_pixel, 100);
    assert_eq!(export.maximum_bounces, 30);
    assert_eq!(export.canvas, Canvas { width: 1920, height: 1080 });
    assert_eq!(export.file_name, "out");
    assert!(!export.overwrite);
}

#[test]
fn a_colorer_hands_its_colour_on_when_its_kind_changes() {
    let other = Color::grey(Scalar::from_ratio(1, 9));
    let gradient = Colorer::ZGradient { bottom: other, top: tint() };
    assert_eq!(retype_colorer(&gradient, ColorerType::Solid, other), Colorer::Solid(tint()));
    assert_eq!(
        retype_colorer(&Colorer::Solid(tint()), ColorerType::ZGradient, other),
        Colorer::ZGradient { top: tint(), bottom: Color::white() }
    );
    assert_eq!(
        retype_colorer(&Colorer::Bubblegum, ColorerType::Solid, other),
        Colorer::Solid(other)
    );
    assert_eq!(retype_colorer(&gradient, ColorerType::Bubblegum, other), Colorer::Bubblegum);
}

#[test]
fn a_material_keeps_its_colorer_when_its_kind_changes() {
    let c = Colorer::Solid(tint());
    let metal = Material::Metal { colorer: c, fuzz: Scalar::from_int(1) };
    assert_eq!(retype_material(&metal, MaterialType::Light), Material::Light(c));
    assert_eq!(retype_material(&metal, MaterialType::Diffuse), Material::Diffuse(c));
    assert_eq!(
        retype_material(&Material::Light(c), MaterialType::Metal),
        Material::Metal { colorer: c, fuzz: Scalar::zero() }
    );
}

#[test]
fn only_a_background_that_is_a_light_shows_its_colorer() {
    let c = Colorer::Solid(tint());
    assert_eq!(background_colorer(&Background { material: Material::Light(c) }), Some(c));
    assert_eq!(background_colorer(&Background { material: Material::Diffuse(c) }), None);
}

#[test]
fn an_edited_normal_is_normalized_and_keeps_its_tag() {
    let up = UnitVec3::unchecked_from(&Vec3::new(
        Scalar::zero(),
        Scalar::zero(),
        Scalar::one(),
    ));
    let edited = Vec3::new(Scalar::from_int(3), Scalar::from_int(4), Scalar::zero());
    assert_eq!(renormalize(&Normal::Inward(up), &edited), Normal::Inward(edited.unit()));
    assert_eq!(renormalize(&Normal::Outward(up), &edited), Normal::Outward(edited.unit()));
}

#[test]
fn keys_move_a_point_by_a_hundredth() {
    let step = Scalar::from_ratio(1, 100);
    let at = |x: Scalar, y: Scalar, z: Scalar| Point::new(x, y, z);
    let zero = Scalar::zero();
    let origin = at(zero, zero, zero);
    assert_eq!(nudge(&origin, Key::W), at(zero, step, zero));
    assert_eq!(nudge(&origin, Key::S), at(zero, step.neg(), zero));
    assert_eq!(nudge(&origin, Key::A), at(step.neg(), zero, zero));
    assert_eq!(nudge(&origin, Key::D), at(step, zero, zero));
    assert_eq!(nudge(&origin, Key::Q), at(zero, zero, step));
    assert_eq!(nudge(&origin, Key::E), at(zero, zero, step.neg()));
    assert_eq!(nudge(&nudge(&origin, Key::W), Key::S), origin);
}

#[test]
fn the_first_degenerate_object_is_found() {
    let c = Material::Diffuse(Colorer::Solid(tint()));
    let zero = Scalar::zero();
    let ball =
        |radius: Scalar| Sphere { center: Point::new(zero, zero, zero), radius, material: c };
    let wall = |n: Vec3| Plane {
        point: Point::new(zero, zero, zero),
        normal: Normal::Outward(UnitVec3::unchecked_from(&n)),
        material: c,
    };
    let up = Vec3::new(zero, Scalar::one(), zero);
    let none = Vec3::new(zero, zero, zero);
    let sky = Background { material: Material::Light(Colorer::Bubblegum) };
    let scene =
        |spheres: Vec<Sphere>, planes: Vec<Plane>| Scene { spheres, planes, background: sky };
    assert_eq!(first_degenerate(&scene(vec![], vec![])), None);
    assert_eq!(first_degenerate(&scene(vec![ball(Scalar::one())], vec![wall(up)])), None);
    assert_eq!(
        first_degenerate(&scene(vec![ball(Scalar::one()), ball(zero), ball(zero)], vec![wall(up)])),
        Some(Object::Sphere(1))
    );
    assert_eq!(
        first_degenerate(&scene(vec![ball(Scalar::from_raw(-1))], vec![wall(none)])),
        Some(Object::Sphere(0))
    );
    assert_eq!(
        first_degenerate(&scene(vec![ball(Scalar::from_raw(1))], vec![wall(up), wall(none)])),
        Some(Object::Plane(1))
    );
}
