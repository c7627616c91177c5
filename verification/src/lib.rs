//! Conway's Game of Life on a finite, rectangular board.
//!
//! The board is a fixed-size grid of cells, each alive or dead. Every executable
//! function states what it returns over [`grid::Grid`], the mathematical model of
//! a board, and is proved against that statement.

pub mod board;
pub mod direction;
pub mod error;
pub mod grid;
pub mod laws;
pub mod life;
pub mod lines;
pub mod presets;
pub mod text;

pub use board::{Board, Coords};
pub use error::BoardError;
pub use grid::Grid;
