//! A verified proximity complex over a small 3D point cloud.
//!
//! The library generates a bounded set of random points, tabulates every
//! pairwise squared distance once, and, for any distance threshold, derives
//! the canonical edge set (pairs closer than the threshold) together with
//! its filled triangles (index triples whose three edges are all present).
//! Coordinates and thresholds are fixed-point integers, so every comparison
//! is exact and every contract is stated over plain integer arithmetic.

pub mod distances;
pub mod laws;
pub mod model;
pub mod point;
pub mod sample;

pub use distances::{Distances, Edge, Triangle};
pub use model::{ConstructionError, Model};
pub use point::Point;
pub use sample::{generate_vertices, select_within};
