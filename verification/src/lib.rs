//! A verified 9x9 Sudoku board model: a grid of optional digits with
//! row, column, and 3x3-segment uniqueness constraints, a constrained
//! placement operation, a random board generator, a locator for the cell
//! that blocks a refused placement, and a plain-text rendering.

pub mod board;
pub mod generate;
pub mod render;

pub use board::Board;
pub use board::Cell;
pub use board::index::Position;
pub use board::placement::PlaceError;
pub use generate::generate_board;
pub use generate::Strategy;
