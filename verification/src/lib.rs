//! A Monte Carlo path tracer over fixed-point arithmetic.
//!
//! Scalars are signed fixed-point numbers at scale `fixed::ONE` (2^16), so
//! every arithmetic step is exact integer computation with truncating
//! division, and every function's result can be stated precisely in its
//! contract.

pub mod fixed;
pub mod prng;
pub mod vec3;
pub mod ray;
pub mod material;
pub mod hittable;
pub mod sphere;
pub mod camera;
pub mod color;
pub mod render;
pub mod scene;
