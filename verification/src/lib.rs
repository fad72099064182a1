//! A verified path-tracing core over fixed-point arithmetic.
//!
//! Scene geometry, materials, the camera and the recursive color
//! integrator all work on integer fixed-point coordinates, so every
//! computation here carries an exact contract.

pub mod camera;
pub mod color;
pub mod fixed;
pub mod hitable;
pub mod material;
pub mod ray;
pub mod rng;
pub mod vec3;

