//! The canvas and the pinhole camera.
use vstd::prelude::*;

use crate::math::{deg_to_radians, spec_deg_to_radians};
use crate::render::ray::Ray;
use crate::scalar::{Scalar, ONE_RAW};
use crate::trig::{spec_tan, tan, TWO_RAW};
use crate::types::point::Point;
use crate::types::vec3::Vec3;

verus! {

/// An angle in degrees.
#[derive(Clone, Copy, Debug, PartialEq, Eq, Structural)]
pub struct Degrees(pub Scalar);

impl Degrees {
    pub fn new(d: Scalar) -> (r: Degrees)
        ensures
            r.0 == d,
    {
        Degrees(d)
    }
}

/// The size of the image in pixels.
#[derive(Clone, Copy, Debug, PartialEq, Eq, Structural)]
pub struct Canvas {
    pub width: usize,
    pub height: usize,
}

/// A pinhole camera that looks down the negative z axis, with x to the right
/// and y upward, and its image plane at distance one from the eye.
#[derive(Clone, Copy, Debug, PartialEq, Eq, Structural)]
pub struct Camera {
    pub to_lower_left_corner: Vec3,
    pub horizontal: Vec3,
    pub vertical: Vec3,
    pub position: Point,
}

/// Width of the image plane: `2 tan(fov / 2)`.
pub open spec fn spec_plane_width(fov: Degrees) -> Scalar {
    (Scalar { raw: TWO_RAW }).spec_mul(
        spec_tan(spec_deg_to_radians(fov.0).spec_div(Scalar { raw: TWO_RAW })),
    )
}

/// Height of the image plane: the width over the canvas's aspect ratio.
pub open spec fn spec_plane_height(canvas: Canvas, fov: Degrees) -> Scalar {
    spec_plane_width(fov).spec_div(
        Scalar::spec_from_count(canvas.width).spec_div(Scalar::spec_from_count(canvas.height)),
    )
}

impl Camera {
    pub open spec fn spec_from_canvas(canvas: Canvas, position: Point, fov: Degrees) -> Camera {
        let h = spec_plane_width(fov);
        let v = spec_plane_height(canvas, fov);
        let two = Scalar { raw: TWO_RAW };
        Camera {
            to_lower_left_corner: Vec3 {
                x: h.spec_neg().spec_div(two),
                y: v.spec_neg().spec_div(two),
                z: (Scalar { raw: ONE_RAW }).spec_neg(),
            },
            horizontal: Vec3 { x: h, y: Scalar { raw: 0 }, z: Scalar { raw: 0 } },
            vertical: Vec3 { x: Scalar { raw: 0 }, y: v, z: Scalar { raw: 0 } },
            position,
        }
    }

    /// The ray from the eye through the point of the image plane at `u` of
    /// its width and `v` of its height, counted from the lower left corner.
    pub open spec fn spec_get_ray(self, u: Scalar, v: Scalar) -> Ray {
        Ray {
            origin: self.position,
            direction: self.to_lower_left_corner.spec_add(self.horizontal.spec_scale(u)).spec_add(
                self.vertical.spec_scale(v),
            ),
        }
    }

    pub fn from_canvas(canvas: &Canvas, position: Point, fov: Degrees) -> (r: Camera)
        ensures
            r == Camera::spec_from_canvas(*canvas, position, fov),
    {
        let aspect_ratio = Scalar::from_count(canvas.width).div(Scalar::from_count(canvas.height));
        let focal_length = Scalar::one();
        let two = Scalar::from_raw(TWO_RAW);
        let h = two.mul(tan(deg_to_radians(fov.0).div(two)));
        let v = h.div(aspect_ratio);
        Camera {
            to_lower_left_corner: Vec3::new(h.neg().div(two), v.neg().div(two), focal_length.neg()),
            horizontal: Vec3::new(h, Scalar::zero(), Scalar::zero()),
            vertical: Vec3::new(Scalar::zero(), v, Scalar::zero()),
            position,
        }
    }

    pub fn get_ray(&self, u: Scalar, v: Scalar) -> (r: Ray)
        ensures
            r == self.spec_get_ray(u, v),
    {
        Ray {
            origin: self.position,
            direction: self.to_lower_left_corner.add(self.horizontal.scale(u)).add(
                self.vertical.scale(v),
            ),
        }
    }
}

} // verus!
