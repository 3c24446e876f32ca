//! Conway's Game of Life on a finite rectangular grid.
//!
//! The heart of the library is [`board::Board`]: a grid of live and dead
//! cells that can be constructed empty, from a boolean matrix, or from a
//! multi-line text pattern, advanced one generation at a time under the
//! classic neighbor-count rules, randomized, and rendered back to text.

pub mod board;
mod rng;
pub mod text;

pub use board::Board;
pub use board::ShapeError;
pub use board::State;
