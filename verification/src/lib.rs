//! Conway's Game of Life on a fixed-size toroidal grid.
//!
//! The grid holds a row-major vector of boolean cells with fixed `width`
//! and `height`. Neighbour counting wraps around the edges (the grid is a
//! torus), and on grids narrower than three cells in either direction the
//! wrapped neighbour positions that coincide are counted once. Evolution
//! follows the classic rule: a live cell survives with two or three live
//! neighbours, a dead cell becomes alive with exactly three.

mod cell;
mod grid;
pub mod laws;
mod model;

pub use cell::Cell;
pub use cell::UpdatedCell;
pub use grid::ConwayGameGrid;
pub use model::GridView;
