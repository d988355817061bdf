//! A recursive Monte-Carlo ray tracer over fixed-point arithmetic.
//!
//! Scalars are fixed-point numbers: an `i64` holding `SCALE` steps per world
//! unit. Every arithmetic step is specified exactly over mathematical
//! integers, so the whole rendering pipeline — vector algebra, ray/sphere
//! intersection, nearest-hit scene scans, the recursive color estimator and
//! the final tone mapping — carries machine-checked contracts.

pub mod camera;
pub mod fixed;
pub mod hittable;
pub mod objects;
pub mod ray;
pub mod render;
pub mod utility;
pub mod vec3;
