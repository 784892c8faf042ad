//! A small ray tracer over exact scaled-integer arithmetic.
//!
//! Every quantity is a real number represented as an integer multiple of
//! 1/1,000,000 (the scaled value).  The library builds the camera and
//! viewport frame, derives a world-space ray per pixel, intersects it with
//! a sphere, and shades it against a sky gradient, all with contracts that
//! pin each result down exactly.

pub mod fixed;
pub mod vec3;
pub mod ray;
pub mod shade;
pub mod camera;
pub mod render;
