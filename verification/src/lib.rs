//! A spatial-acceleration and nearest-hit core for an offline renderer.
//!
//! Every number the core compares is an IEEE-754 double carried by its order
//! key, an integer whose order is the order of the doubles. The core decides,
//! selects and lays out; the arithmetic on coordinates is handed in by the
//! caller, as values or as closures.

pub mod scalar;
pub mod vec3;
pub mod ray;
pub mod bounding;
pub mod hittable;
pub mod order;
pub mod bvh;
pub mod quad;
pub mod sphere;
pub mod transform;
pub mod cube;
pub mod agreement;
