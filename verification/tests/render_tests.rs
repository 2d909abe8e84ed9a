use keyell::render::{
    Background, Camera, Canvas, Color, Colorer, Degrees, Hittable, Material, Plane, Ray, Sphere,
};
use keyell::rng::RowRng;
use keyell::scalar::{Scalar, ONE_RAW};
use keyell::types::{Normal, Point, UnitVec3, Vec3};
use keyell::{color_hit, ray_color, render_pixel, render_row, render_scene, Scene};

fn ratio(n: i64, d: i64) -> Scalar {
    Scalar::from_ratio(n, d)
}

fn whole(n: i32) -> Scalar {
    Scalar::from_int(n)
}

fn p(x: i32, y: i32, z: i32) -> Point {
    Point::new(whole(x), whole(y), whole(z))
}

fn v(x: i32, y: i32, z: i32) -> Vec3 {
    Vec3::new(whole(x), whole(y), whole(z))
}

fn albedo() -> Color {
    Color::new(ratio(1, 2), ratio(1, 4), ratio(3, 4))
}

fn white_sky() -> Background {
    Background { material: Material::Light(Colorer::Solid(Color::white())) }
}

fn ball(material: Material) -> Sphere {
    Sphere { center: p(0, 0, -1), radius: ratio(1, 2), material }
}

fn one_ball(material: Material) -> Scene {
    Scene { spheres: vec![ball(material)], planes: Vec::new(), background: white_sky() }
}

fn busy_scene() -> Scene {
    Scene {
        spheres: vec![
            ball(Material::Diffuse(Colorer::Solid(albedo()))),
            Sphere {
                center: Point::new(whole(1), whole(0), ratio(-3, 2)),
                radius: ratio(1, 2),
                material: Material::Metal { colorer: Colorer::Bubblegum, fuzz: ratio(1, 5) },
            },
            Sphere {
                center: Point::new(whole(-1), whole(0), ratio(-3, 2)),
                radius: ratio(1, 2),
                material: Material::Dielectric {
                    refraction_index: ratio(13, 10),
                    colorer: Colorer::Solid(Color::white()),
                },
            },
        ],
        planes: vec![Plane {
            point: Point::new(whole(0), ratio(-1, 2), whole(0)),
            normal: Normal::Outward(v(0, 1, 0).unit()),
            material: Material::Diffuse(Colorer::Solid(Color::new(
                ratio(4, 10),
                ratio(8, 10),
                ratio(4, 10),
            ))),
        }],
        background: Background {
            material: Material::Light(Colorer::ZGradient {
                top: Color::new(ratio(1, 2), ratio(7, 10), whole(1)),
                bottom: Color::white(),
            }),
        },
    }
}

fn down_z() -> Ray {
    Ray { origin: p(0, 0, 0), direction: v(0, 0, -1) }
}

fn luminance(c: &Color) -> i128 {
    c.r.raw as i128 + c.g.raw as i128 + c.b.raw as i128
}

fn square_camera(canvas: &Canvas) -> Camera {
    Camera::from_canvas(canvas, p(0, 0, 0), Degrees::new(whole(90)))
}

fn rendered(scene: &Scene, canvas: &Canvas, samples: usize, bounces: usize) -> Vec<Color> {
    let camera = square_camera(canvas);
    let mut pixels = vec![Color::grey(whole(-1)); canvas.width * canvas.height];
    render_scene(&mut pixels, scene, canvas, &camera, samples, bounces, 0..canvas.height);
    pixels
}

#[test]
fn camera_of_a_square_canvas() {
    let canvas = Canvas { width: 10, height: 10 };
    let camera = square_camera(&canvas);
    assert_eq!(camera.to_lower_left_corner, v(-1, -1, -1));
    assert_eq!(camera.horizontal, v(2, 0, 0));
    assert_eq!(camera.vertical, v(0, 2, 0));
    assert_eq!(camera.position, p(0, 0, 0));
}

#[test]
fn camera_of_a_wide_canvas_at_another_place() {
    let canvas = Canvas { width: 20, height: 10 };
    let eye = Point::new(whole(1), whole(2), ratio(1, 20));
    let camera = Camera::from_canvas(&canvas, eye, Degrees::new(whole(90)));
    assert_eq!(camera.to_lower_left_corner, Vec3::new(whole(-1), ratio(-1, 2), whole(-1)));
    assert_eq!(camera.horizontal, v(2, 0, 0));
    assert_eq!(camera.vertical, v(0, 1, 0));
    assert_eq!(camera.position, eye);
}

#[test]
fn camera_with_a_narrower_field_of_view() {
    let canvas = Canvas { width: 10, height: 10 };
    let camera = Camera::from_canvas(&canvas, p(0, 0, 0), Degrees::new(whole(60)));
    // 2 tan(30 degrees) = 1.1547
    let want = 1.1547005 * ONE_RAW as f64;
    assert!((camera.horizontal.x.raw as f64 - want).abs() < 0.003 * ONE_RAW as f64);
    assert_eq!(camera.vertical.y, camera.horizontal.x);
}

#[test]
fn camera_rays_span_the_image_plane() {
    let canvas = Canvas { width: 10, height: 10 };
    let camera = square_camera(&canvas);
    let ray = camera.get_ray(ratio(1, 2), ratio(1, 2));
    assert_eq!(ray.origin, p(0, 0, 0));
    assert_eq!(ray.direction, v(0, 0, -1));
    assert_eq!(camera.get_ray(whole(0), whole(0)).direction, v(-1, -1, -1));
    assert_eq!(camera.get_ray(whole(1), whole(0)).direction, v(1, -1, -1));
    assert_eq!(camera.get_ray(whole(0), whole(1)).direction, v(-1, 1, -1));
    assert_eq!(camera.get_ray(whole(1), whole(1)).direction, v(1, 1, -1));
}

#[test]
fn no_bounces_left_gives_black() {
    let scene = one_ball(Material::Light(Colorer::Solid(albedo())));
    let mut rng = RowRng::for_row(0);
    assert_eq!(ray_color(&down_z(), &scene, 0, &mut rng), Color::black());
    let hit = scene.hit(&down_z(), ratio(1, 1000), Scalar::infinity()).unwrap();
    assert_eq!(color_hit(&scene, &down_z(), &hit, 0, &mut rng), Color::black());
}

#[test]
fn a_light_gives_its_colour() {
    let scene = one_ball(Material::Light(Colorer::Solid(albedo())));
    let mut rng = RowRng::for_row(0);
    assert_eq!(ray_color(&down_z(), &scene, 1, &mut rng), albedo());
    assert_eq!(ray_color(&down_z(), &scene, 9, &mut rng), albedo());
    let away = Ray { origin: p(0, 0, 0), direction: v(0, 1, 0) };
    assert_eq!(ray_color(&away, &scene, 1, &mut rng), Color::white());
}

#[test]
fn a_diffuse_ball_under_a_white_sky_shows_its_own_colour() {
    let scene = one_ball(Material::Diffuse(Colorer::Solid(albedo())));
    for row in 0..20 {
        let mut rng = RowRng::for_row(row);
        assert_eq!(ray_color(&down_z(), &scene, 1, &mut rng), Color::black());
        assert_eq!(ray_color(&down_z(), &scene, 2, &mut rng), albedo());
        assert_eq!(ray_color(&down_z(), &scene, 7, &mut rng), albedo());
    }
}

#[test]
fn a_mirror_ball_shows_what_lies_behind_the_eye() {
    let mirror = Material::Metal { colorer: Colorer::Solid(albedo()), fuzz: whole(0) };
    let scene = Scene {
        spheres: vec![
            ball(mirror),
            Sphere {
                center: p(0, 0, 3),
                radius: whole(1),
                material: Material::Light(Colorer::Solid(Color::grey(whole(2)))),
            },
        ],
        planes: Vec::new(),
        background: white_sky(),
    };
    let mut rng = RowRng::for_row(1);
    let got = ray_color(&down_z(), &scene, 5, &mut rng);
    assert_eq!(got, Color::new(whole(1), ratio(1, 2), ratio(3, 2)));
}

#[test]
fn an_absent_hit_gives_black() {
    // a sky that is asked with a finite end never answers; the renderer never asks so
    let scene = Scene { spheres: Vec::new(), planes: Vec::new(), background: white_sky() };
    let mut rng = RowRng::for_row(0);
    assert_eq!(ray_color(&down_z(), &scene, 3, &mut rng), Color::white());
}

#[test]
fn a_surface_is_not_met_again_within_the_shortest_travel() {
    // a ray that starts on the plane must not meet it at travel zero
    let floor = Plane {
        point: p(0, 0, 0),
        normal: Normal::Outward(v(0, 1, 0).unit()),
        material: Material::Light(Colorer::Solid(albedo())),
    };
    let scene = Scene { spheres: Vec::new(), planes: vec![floor], background: white_sky() };
    let leaving = Ray { origin: p(0, 0, 0), direction: v(0, 1, 0) };
    let mut rng = RowRng::for_row(0);
    assert_eq!(ray_color(&leaving, &scene, 3, &mut rng), Color::white());
    let close = Ray {
        origin: Point::new(whole(0), ratio(1, 2000), whole(0)),
        direction: v(0, -1, 0),
    };
    assert_eq!(ray_color(&close, &scene, 3, &mut rng), Color::white());
    let farther = Ray {
        origin: Point::new(whole(0), ratio(1, 500), whole(0)),
        direction: v(0, -1, 0),
    };
    assert_eq!(ray_color(&farther, &scene, 3, &mut rng), albedo());
}

#[test]
fn end_to_end_ball_in_front_of_a_white_sky() {
    let canvas = Canvas { width: 10, height: 10 };
    let scene = one_ball(Material::Diffuse(Colorer::Solid(albedo())));
    let pixels = rendered(&scene, &canvas, 1, 1);
    assert_eq!(pixels.len(), 100);
    assert!(pixels.iter().any(|c| *c != Color::black()));
    let center = &pixels[5 * 10 + 5];
    for corner in [0, 9, 90, 99] {
        assert_eq!(pixels[corner], Color::white());
        assert!(luminance(center) < luminance(&pixels[corner]));
    }
    assert_eq!(*center, Color::black());
    // the ball covers the middle of the image and nothing else
    let dark = pixels.iter().filter(|c| **c == Color::black()).count();
    assert!(dark >= 12 && dark <= 40);
    for (i, c) in pixels.iter().enumerate() {
        assert!(*c == Color::black() || *c == Color::white());
        let (row, column) = (i / 10, i % 10);
        if row == 0 || row == 9 || column == 0 || column == 9 {
            assert_eq!(*c, Color::white());
        }
    }
}

#[test]
fn end_to_end_with_more_samples_and_bounces() {
    let canvas = Canvas { width: 10, height: 10 };
    let scene = one_ball(Material::Diffuse(Colorer::Solid(albedo())));
    let pixels = rendered(&scene, &canvas, 4, 6);
    let center = &pixels[5 * 10 + 5];
    assert_eq!(*center, albedo());
    for corner in [0, 9, 90, 99] {
        assert_eq!(pixels[corner], Color::white());
        assert!(luminance(center) < luminance(&pixels[corner]));
    }
}

#[test]
fn the_top_row_of_the_buffer_is_the_top_of_the_image() {
    let canvas = Canvas { width: 8, height: 8 };
    let above = Sphere {
        center: Point::new(whole(0), ratio(7, 10), whole(-1)),
        radius: ratio(3, 10),
        material: Material::Light(Colorer::Solid(Color::black())),
    };
    let scene = Scene { spheres: vec![above], planes: Vec::new(), background: white_sky() };
    let pixels = rendered(&scene, &canvas, 1, 1);
    let dark_rows: Vec<usize> =
        (0..64).filter(|i| pixels[*i] == Color::black()).map(|i| i / 8).collect();
    assert!(!dark_rows.is_empty());
    assert!(dark_rows.iter().all(|row| *row < 4));
}

#[test]
fn the_first_column_of_the_buffer_is_the_left_of_the_image() {
    let canvas = Canvas { width: 8, height: 8 };
    let left = Sphere {
        center: Point::new(ratio(-7, 10), whole(0), whole(-1)),
        radius: ratio(3, 10),
        material: Material::Light(Colorer::Solid(Color::black())),
    };
    let scene = Scene { spheres: vec![left], planes: Vec::new(), background: white_sky() };
    let pixels = rendered(&scene, &canvas, 1, 1);
    let dark_columns: Vec<usize> =
        (0..64).filter(|i| pixels[*i] == Color::black()).map(|i| i % 8).collect();
    assert!(!dark_columns.is_empty());
    assert!(dark_columns.iter().all(|column| *column < 4));
}

#[test]
fn rendering_twice_gives_the_same_pixels() {
    let canvas = Canvas { width: 12, height: 9 };
    let scene = busy_scene();
    let first = rendered(&scene, &canvas, 3, 5);
    let second = rendered(&scene, &canvas, 3, 5);
    assert_eq!(first, second);
    assert!(first.iter().any(|c| *c != first[0]));
}

#[test]
fn rows_do_not_depend_on_how_the_image_is_split() {
    let canvas = Canvas { width: 12, height: 9 };
    let scene = busy_scene();
    let camera = square_camera(&canvas);
    let whole_image = rendered(&scene, &canvas, 2, 4);
    let mut upper = vec![Color::black(); 4 * 12];
    let mut lower = vec![Color::black(); 5 * 12];
    render_scene(&mut lower, &scene, &canvas, &camera, 2, 4, 4..9);
    render_scene(&mut upper, &scene, &canvas, &camera, 2, 4, 0..4);
    assert_eq!(&whole_image[..48], &upper[..]);
    assert_eq!(&whole_image[48..], &lower[..]);
    for index in [8, 0, 3] {
        let row = render_row(&scene, &canvas, &camera, 2, 4, index);
        assert_eq!(&whole_image[index * 12..(index + 1) * 12], &row[..]);
    }
    let mut none: Vec<Color> = Vec::new();
    render_scene(&mut none, &scene, &canvas, &camera, 2, 4, 5..5);
    assert!(none.is_empty());
}

#[test]
fn a_pixel_is_the_mean_of_its_samples() {
    let canvas = Canvas { width: 4, height: 4 };
    let scene = busy_scene();
    let camera = square_camera(&canvas);
    let mut rng = RowRng::for_row(2);
    let got = render_pixel(&scene, &canvas, &camera, 3, 4, 1, 2, &mut rng);
    let mut again = RowRng::for_row(2);
    let mut sum = Color::black();
    for _ in 0..3 {
        let u = again.unit_interval().add(whole(1)).div(whole(4));
        let v = again.unit_interval().add(whole(2)).div(whole(4));
        sum = sum.add(ray_color(&camera.get_ray(u, v), &scene, 4, &mut again));
    }
    assert_eq!(got, sum.div(whole(3)));
}

#[test]
fn no_samples_or_no_bounces_give_a_black_image() {
    let canvas = Canvas { width: 5, height: 3 };
    let scene = busy_scene();
    assert!(rendered(&scene, &canvas, 0, 5).iter().all(|c| *c == Color::black()));
    assert!(rendered(&scene, &canvas, 5, 0).iter().all(|c| *c == Color::black()));
}

#[test]
fn no_channel_of_a_rendering_is_negative() {
    let canvas = Canvas { width: 16, height: 12 };
    let scene = busy_scene();
    let pixels = rendered(&scene, &canvas, 3, 8);
    for c in &pixels {
        assert!(c.r.raw >= 0 && c.g.raw >= 0 && c.b.raw >= 0);
    }
    assert!(pixels.iter().any(|c| luminance(c) > 0));
}

#[test]
fn random_directions_have_length_one() {
    let mut rng = RowRng::for_row(11);
    for _ in 0..200 {
        let u = UnitVec3::random(&mut rng);
        let len = u.get().len().raw;
        assert!(ONE_RAW - 5 <= len && len <= ONE_RAW + 2);
    }
}

#[test]
fn draws_lie_in_their_intervals_and_vary() {
    let mut rng = RowRng::for_row(3);
    let mut flat: Vec<i64> = Vec::new();
    let mut signed: Vec<i64> = Vec::new();
    for _ in 0..500 {
        let a = rng.unit_interval().raw;
        let b = rng.signed_unit().raw;
        assert!(0 <= a && a < ONE_RAW);
        assert!(-ONE_RAW <= b && b < ONE_RAW);
        flat.push(a);
        signed.push(b);
    }
    assert!(flat.iter().any(|a| *a != flat[0]));
    assert!(flat.iter().any(|a| *a > ONE_RAW / 2) && flat.iter().any(|a| *a < ONE_RAW / 2));
    assert!(signed.iter().any(|b| *b < 0) && signed.iter().any(|b| *b > 0));
}

#[test]
fn the_stream_of_a_row_depends_on_the_row_alone() {
    let draws = |row: usize| {
        let mut rng = RowRng::for_row(row);
        (0..16).map(|_| rng.unit_interval().raw).collect::<Vec<i64>>()
    };
    assert_eq!(draws(0), draws(0));
    assert_eq!(draws(41), draws(41));
    assert_ne!(draws(0), draws(1));
    assert_ne!(draws(41), draws(42));
}
