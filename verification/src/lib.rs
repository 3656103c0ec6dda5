pub mod camera;
pub mod color;
pub mod fixed;
pub mod hit;
pub mod material;
pub mod ray;
pub mod render;
pub mod util;
pub mod vec3;
