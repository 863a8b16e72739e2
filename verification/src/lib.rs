//! A path-tracing renderer verified with Verus.
//!
//! All geometry and shading runs on signed 64-bit fixed-point scalars
//! (16 fractional bits), so every intersection routine, the bounding-volume
//! hierarchy and the light-transport integrator have exact, machine-checked
//! contracts.  Randomness (sampling, the BVH split axis) and the parallel
//! row fan-out are obtained from outside crates through small trusted
//! wrappers; everything computed from their results is verified.

pub mod fixed;
pub mod vec3;
pub mod ray;
pub mod aabb;
pub mod hit;
pub mod sphere;
pub mod triangle;
pub mod primitive;
pub mod bvh;
pub mod texture;
pub mod material;
pub mod light;
pub mod world;
pub mod camera;
pub mod renderer;
pub mod color_utils;
pub mod common;
pub mod config;
pub mod scene;
pub mod circle;
pub mod mesh;
pub mod rng;
