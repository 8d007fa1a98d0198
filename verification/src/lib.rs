//! Conway's Game of Life on a fixed-size toroidal grid.
//!
//! The grid is bit-packed, one cell per bit in row-major order, and evolves
//! in discrete generations: every cell's next state is computed from a
//! snapshot of the previous generation's neighbor counts.

mod bits;
mod cell;
mod rng;
mod universe;

pub use cell::Cell;
pub use universe::Universe;
