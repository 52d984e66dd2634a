//! In-memory world store for a voxel environment: a bounded grid of cells,
//! each referencing a deduplicated block definition, with incrementally
//! recomputed per-cell lighting and a precomputed chunk enumeration for
//! renderers.

pub mod apps;
pub mod block;
pub mod chunking;
pub mod grid;
pub mod light;
pub mod math;
pub mod space;
pub mod tools;
pub mod universe;
pub mod vui;
