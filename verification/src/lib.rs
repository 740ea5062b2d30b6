//! A fixed-size two-dimensional grid container with bounds-checked access,
//! rectangular sub-region extraction, and in-place region transformation.

pub mod carve;
pub mod grid;
pub mod vector;
pub mod world;
