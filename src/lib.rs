//! Conway's Game of Life on a fixed, non-wrapping rectangular grid.
//!
//! `model` holds the mathematical description of a grid and of one
//! generation step; `laws` proves properties of that description; `sim`
//! holds the executable engine, whose contracts are stated over the model.

pub mod laws;
pub mod model;
pub mod sim;

pub use model::Grid;
pub use sim::Simulation;
