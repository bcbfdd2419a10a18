//! Decomposition of a simple rectilinear polygon into axis-aligned rectangles
//! by a sweep of a horizontal scanline upwards.
//!
//! The boundary lives in a [`geometry::Geometry`]: nodes and vertical edges in
//! two arenas, addressed by identifiers that stay valid as the sweep adds
//! nodes and edges. [`active`] holds the two cursor-addressed working sets,
//! [`edge_scans`] the machine that pairs walls on one scanline and emits a
//! rectangle, and [`decomposer`] the sweep itself.

pub mod point;
pub mod rect;
pub mod cell;
pub mod node;
pub mod edge;
pub mod arena;
pub mod active;
pub mod geometry;
pub mod edge_scans;
pub mod decomposer;
