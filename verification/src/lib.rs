//! A verified Monte Carlo path-tracing core.
//!
//! The crate models scene geometry, a bounding-volume hierarchy, surface
//! materials and the recursive integrator over exact fixed-point arithmetic,
//! so that the hit-testing and traversal logic carries precise contracts.

pub mod fixed;
pub mod vec3;
pub mod ray;
pub mod aabb;
pub mod rng;
pub mod material;
pub mod hit;
pub mod object;
pub mod world;
pub mod bvh;
pub mod integrator;
