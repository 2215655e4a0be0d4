//! Conway's Game of Life on a toroidal grid: the grid, the generation rule,
//! the random perturbation of a seed pattern and the two pattern file formats.

pub mod grid;
pub mod engine;
pub mod fuzz;
pub mod coords;
pub mod rle;
pub mod pattern;
pub mod game;
