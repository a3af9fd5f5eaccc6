//! Conway's Game of Life on a finite rectangular board whose edges do not wrap.
//!
//! [`Board`] is the executable engine. Its contracts are stated over [`Grid`], the
//! mathematical model of a board: fixed dimensions and the set of live coordinates.

pub mod board;
pub mod cell;
pub mod grid;

pub use board::{Board, BoardError};
pub use cell::CellState;
pub use grid::Grid;
