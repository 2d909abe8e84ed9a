pub mod normal;
pub mod point;
pub mod vec3;

pub use normal::Normal;
pub use point::Point;
pub use vec3::{UnitVec3, Vec3};
