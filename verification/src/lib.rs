//! Conway's Game of Life on a bounded rectangular grid.
//!
//! The board is a flat, row-major buffer of cells. One call of
//! [`GameBoard::tick`] replaces the whole buffer by the next generation, each
//! cell computed from the generation before it.

pub mod board;
pub mod cell;
pub mod locator;

pub use board::GameBoard;
pub use cell::Cell;
