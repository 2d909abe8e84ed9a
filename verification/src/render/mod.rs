pub mod camera;
pub mod color;
pub mod colorer;
pub mod hittable;
pub mod material;
pub mod ray;

pub use camera::{Camera, Canvas, Degrees};
pub use color::Color;
pub use colorer::Colorer;
pub use hittable::{Background, Hit, Hittable, Plane, Sphere};
pub use material::{Bounce, Interaction, Material, Source};
pub use ray::Ray;
