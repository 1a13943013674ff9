//! Conway's Game of Life on a toroidal grid, verified with Verus.

pub mod universe;
pub mod utils;
