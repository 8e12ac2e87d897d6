//! A Monte Carlo path-tracing core on fixed-point arithmetic.
//!
//! Scalars are Q47.16 fixed-point numbers: an `i64` holding the real value
//! scaled by `fixed::ONE`.  Every geometric query (interval, bounding box,
//! sphere, quadrilateral, BVH traversal) is specified exactly over the
//! integers, so the bounding-volume hierarchy can be proved to return the
//! same nearest hit as a brute-force scan of the scene.

pub mod fixed;
pub mod rng;
pub mod vector;
pub mod interval;
pub mod ray;
pub mod aabb;
pub mod texture;
pub mod material;
pub mod hittable;
pub mod bvh;
pub mod pdf;
