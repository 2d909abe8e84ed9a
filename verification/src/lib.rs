//! A path tracer on fixed-point numbers.
//!
//! A scene of spheres, planes and a background is rendered through a pinhole
//! camera: rays are followed from surface to surface until they meet a light
//! or run out of bounces, and each pixel is the mean of several such paths.
//! Every number is a [`scalar::Scalar`], a 64-bit fixed-point value whose
//! arithmetic saturates, so that rendering is total and gives the same image
//! on every machine for the same random numbers. Each row of an image draws
//! its numbers from a stream of its own, seeded with the row's index.
//!
//! The modules, leaves first: [`scalar`] and [`trig`] hold the numbers,
//! [`types`] vectors, points and normals, [`math`] and [`physics`] scalar
//! products, reflection and refraction, [`render`] rays, colours, the camera,
//! materials and the objects that a ray can meet, [`scene`] the nearest hit
//! of a whole scene, [`tracer`] the colour along a ray, [`frame`] pixels and
//! rows, [`ppm`] the image as text, [`net`] the sharing of rows between
//! machines, and [`pick`] and [`editor`] what an editor of scenes asks for.
pub mod editor;
pub mod frame;
pub mod math;
pub mod net;
pub mod physics;
pub mod pick;
pub mod ppm;
pub mod render;
pub mod rng;
pub mod scalar;
pub mod scene;
pub mod tracer;
pub mod trig;
pub mod types;

pub use frame::{render_pixel, render_row, render_scene};
pub use scene::Scene;
pub use tracer::{color_hit, ray_color};
