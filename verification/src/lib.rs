//! Conway's Game of Life on a fixed-size torus.
//!
//! A [`Universe`] holds one generation of cells. [`Universe::tick`] computes
//! the next generation as a new grid and tells whether it is extinct. The
//! module `grid` states what a generation, a neighbourhood and a transition
//! are; the module `patterns` proves how the classical patterns behave.

pub mod cell;
pub mod grid;
pub mod universe;
pub mod seed;
pub mod render;
pub mod patterns;

pub use cell::{Cell, next_state};
pub use universe::{Universe, GridError};
pub use seed::{ALIVE_CHANCE, cell_from_draw};
