//! What an editor of scenes needs besides picking: the kinds of material and
//! of colorer as choices of their own, and the settings of a preview and of
//! an export.
use vstd::prelude::*;

use crate::net::Remote;
use crate::render::camera::Canvas;
use crate::render::color::Color;
use crate::render::colorer::Colorer;
use crate::render::hittable::Background;
use crate::render::material::Material;
use crate::scalar::Scalar;
use crate::types::normal::Normal;
use crate::types::point::Point;
use crate::types::vec3::Vec3;

verus! {

/// The kind of a material, without its parameters.
#[derive(Clone, Copy, Debug, PartialEq, Eq, Structural)]
pub enum MaterialType {
    Diffuse,
    Metal,
    Dielectric,
    Light,
}

impl MaterialType {
    /// The kind of `material`.
    pub open spec fn spec_from(material: Material) -> MaterialType {
        match material {
            Material::Diffuse(_) => MaterialType::Diffuse,
            Material::Metal { .. } => MaterialType::Metal,
            Material::Dielectric { .. } => MaterialType::Dielectric,
            Material::Light(_) => MaterialType::Light,
        }
    }

    /// The material of this kind with the given colorer: a metal is polished,
    /// and a dielectric has the refraction index four fifths.
    pub open spec fn spec_to_material(self, colorer: Colorer) -> Material {
        match self {
            MaterialType::Diffuse => Material::Diffuse(colorer),
            MaterialType::Metal => Material::Metal { colorer, fuzz: Scalar { raw: 0 } },
            MaterialType::Dielectric => Material::Dielectric {
                refraction_index: Scalar::spec_from_ratio(4, 5),
                colorer,
            },
            MaterialType::Light => Material::Light(colorer),
        }
    }

    pub fn to_material(&self, colorer: Colorer) -> (material: Material)
        ensures
            material == self.spec_to_material(colorer),
            MaterialType::spec_from(material) == *self,
            material.spec_get_colorer() == colorer,
    {
        match self {
            MaterialType::Diffuse => Material::Diffuse(colorer),
            MaterialType::Metal => Material::Metal { colorer, fuzz: Scalar::zero() },
            MaterialType::Dielectric => Material::Dielectric {
                refraction_index: Scalar::from_ratio(4, 5),
                colorer,
            },
            MaterialType::Light => Material::Light(colorer),
        }
    }

    pub fn from(material: &Material) -> (kind: MaterialType)
        ensures
            kind == MaterialType::spec_from(*material),
    {
        match material {
            Material::Diffuse(_) => MaterialType::Diffuse,
            Material::Metal { .. } => MaterialType::Metal,
            Material::Dielectric { .. } => MaterialType::Dielectric,
            Material::Light(_) => MaterialType::Light,
        }
    }
}

/// The kind of a colorer, without its colours.
#[derive(Clone, Copy, Debug, PartialEq, Eq, Structural)]
pub enum ColorerType {
    ZGradient,
    Solid,
    Bubblegum,
}

impl ColorerType {
    /// The kind of `colorer`.
    pub open spec fn spec_from(colorer: Colorer) -> ColorerType {
        match colorer {
            Colorer::ZGradient { .. } => ColorerType::ZGradient,
            Colorer::Solid(_) => ColorerType::Solid,
            Colorer::Bubblegum => ColorerType::Bubblegum,
        }
    }

    /// The colorer of this kind that takes over `previous_color`: as the top
    /// of a gradient over white, or as the one colour.
    pub open spec fn spec_to_colorer(self, previous_color: Color) -> Colorer {
        match self {
            ColorerType::ZGradient => Colorer::ZGradient {
                top: previous_color,
                bottom: Color::spec_white(),
            },
            ColorerType::Solid => Colorer::Solid(previous_color),
            ColorerType::Bubblegum => Colorer::Bubblegum,
        }
    }

    pub fn to_colorer(&self, previous_color: Color) -> (colorer: Colorer)
        ensures
            colorer == self.spec_to_colorer(previous_color),
            ColorerType::spec_from(colorer) == *self,
    {
        match self {
            ColorerType::ZGradient => Colorer::ZGradient {
                top: previous_color,
                bottom: Color::white(),
            },
            ColorerType::Solid => Colorer::Solid(previous_color),
            ColorerType::Bubblegum => Colorer::Bubblegum,
        }
    }

    pub fn from(colorer: &Colorer) -> (kind: ColorerType)
        ensures
            kind == ColorerType::spec_from(*colorer),
    {
        match colorer {
            Colorer::ZGradient { .. } => ColorerType::ZGradient,
            Colorer::Solid(_) => ColorerType::Solid,
            Colorer::Bubblegum => ColorerType::Bubblegum,
        }
    }
}

/// The colour that a colorer hands on when its kind changes: the top of a
/// gradient, the one colour of a solid, and `fallback` for stripes, which
/// hold no colour.
pub open spec fn spec_previous_color(colorer: Colorer, fallback: Color) -> Color {
    match colorer {
        Colorer::ZGradient { top, .. } => top,
        Colorer::Solid(color) => color,
        Colorer::Bubblegum => fallback,
    }
}

/// The colorer of kind `kind` that takes the place of `colorer`.
pub fn retype_colorer(colorer: &Colorer, kind: ColorerType, fallback: Color) -> (changed: Colorer)
    ensures
        changed == kind.spec_to_colorer(spec_previous_color(*colorer, fallback)),
        ColorerType::spec_from(changed) == kind,
{
    let previous = match colorer {
        Colorer::ZGradient { top, .. } => *top,
        Colorer::Solid(color) => *color,
        Colorer::Bubblegum => fallback,
    };
    kind.to_colorer(previous)
}

/// The material of kind `kind` that takes the place of `material` and keeps
/// its colorer.
pub fn retype_material(material: &Material, kind: MaterialType) -> (changed: Material)
    ensures
        changed == kind.spec_to_material(material.spec_get_colorer()),
        MaterialType::spec_from(changed) == kind,
        changed.spec_get_colorer() == material.spec_get_colorer(),
{
    kind.to_material(material.get_colorer())
}

/// The colorer of a background, which an editor shows only for a background
/// that is a light.
pub fn background_colorer(background: &Background) -> (colorer: Option<Colorer>)
    ensures
        colorer == (match background.material {
            Material::Light(c) => Some(c),
            _ => None,
        }),
{
    match background.material {
        Material::Light(c) => Some(c),
        _ => None,
    }
}

/// The normal with the tag of `normal` and the direction of `edited`.
pub fn renormalize(normal: &Normal, edited: &Vec3) -> (changed: Normal)
    ensures
        changed == (match *normal {
            Normal::Inward(_) => Normal::Inward(edited.spec_unit()),
            Normal::Outward(_) => Normal::Outward(edited.spec_unit()),
        }),
{
    match normal {
        Normal::Inward(_) => Normal::Inward(edited.unit()),
        Normal::Outward(_) => Normal::Outward(edited.unit()),
    }
}

/// The keys that move the selected object.
#[derive(Clone, Copy, Debug, PartialEq, Eq, Structural)]
pub enum Key {
    /// Up.
    W,
    /// Down.
    S,
    /// Left.
    A,
    /// Right.
    D,
    /// Nearer to the camera.
    Q,
    /// Farther from the camera.
    E,
}

/// Raw value of the step of one key press: a hundredth.
pub const STEP_RAW: i64 = 0x28f_5c28;

/// The place that `point` is moved to by one press of `key`, as the camera
/// sees it: x grows to the right, y upward, and z toward the camera.
pub open spec fn spec_nudge(point: Point, key: Key) -> Point {
    let step = Scalar { raw: STEP_RAW };
    match key {
        Key::W => Point { y: point.y.spec_add(step), ..point },
        Key::S => Point { y: point.y.spec_sub(step), ..point },
        Key::A => Point { x: point.x.spec_sub(step), ..point },
        Key::D => Point { x: point.x.spec_add(step), ..point },
        Key::Q => Point { z: point.z.spec_add(step), ..point },
        Key::E => Point { z: point.z.spec_sub(step), ..point },
    }
}

/// Moves `point` by one press of `key`.
pub fn nudge(point: &Point, key: Key) -> (moved: Point)
    ensures
        moved == spec_nudge(*point, key),
{
    let step = Scalar::from_raw(STEP_RAW);
    match key {
        Key::W => Point { x: point.x, y: point.y.add(step), z: point.z },
        Key::S => Point { x: point.x, y: point.y.sub(step), z: point.z },
        Key::A => Point { x: point.x.sub(step), y: point.y, z: point.z },
        Key::D => Point { x: point.x.add(step), y: point.y, z: point.z },
        Key::Q => Point { x: point.x, y: point.y, z: point.z.add(step) },
        Key::E => Point { x: point.x, y: point.y, z: point.z.sub(step) },
    }
}

/// The settings of the preview and its buffer of three bytes for each pixel.
pub struct PreviewState {
    pub samples_per_pixel: usize,
    pub maximum_bounces: usize,
    pub canvas: Canvas,
    pub buffer: Vec<u8>,
}

impl PreviewState {
    /// Ten samples and ten bounces on 640 by 360 pixels, with a buffer of
    /// zeros.
    pub fn new() -> (r: PreviewState)
        ensures
            r.samples_per_pixel == 10,
            r.maximum_bounces == 10,
            r.canvas == (Canvas { width: 640, height: 360 }),
            r.buffer.len() == 3 * 640 * 360,
            forall|i: int| 0 <= i < r.buffer.len() ==> r.buffer[i] == 0,
    {
        let mut buffer: Vec<u8> = Vec::new();
        let mut i: usize = 0;
        while i < 691200
            invariant
                i <= 691200,
                buffer.len() == i,
                forall|k: int| 0 <= k < buffer.len() ==> buffer[k] == 0,
            decreases 691200 - i,
        {
            buffer.push(0);
            i = i + 1;
        }
        PreviewState {
            samples_per_pixel: 10,
            maximum_bounces: 10,
            canvas: Canvas { width: 640, height: 360 },
            buffer,
        }
    }
}

/// The settings of an export.
pub struct ExportParams {
    pub remotes: Vec<Remote>,
    pub samples_per_pixel: usize,
    pub maximum_bounces: usize,
    pub canvas: Canvas,
    pub file_name: String,
    pub overwrite: bool,
}

impl ExportParams {
    /// A hundred samples and thirty bounces on 1920 by 1080 pixels, without
    /// workers, into the file `out`, which must not exist yet.
    pub fn new() -> (r: ExportParams)
        ensures
            r.remotes.len() == 0,
            r.samples_per_pixel == 100,
            r.maximum_bounces == 30,
            r.canvas == (Canvas { width: 1920, height: 1080 }),
            r.file_name@ == "out"@,
            !r.overwrite,
    {
        ExportParams {
            remotes: Vec::new(),
            samples_per_pixel: 100,
            maximum_bounces: 30,
            canvas: Canvas { width: 1920, height: 1080 },
            file_name: "out".to_owned(),
            overwrite: false,
        }
    }
}

} // verus!
