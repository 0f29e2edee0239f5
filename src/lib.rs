//! Conway's Game of Life on a bounded grid, with detection of known
//! shapes in the live population.

pub mod board;
pub mod patterns;
pub mod rle_guard;
pub mod scan;
pub mod utils;
pub mod world;
