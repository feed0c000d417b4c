//! Core of a falling-block puzzle game: piece shapes, rotation, collision
//! detection against a board grid, lateral and downward movement, and
//! locking of pieces into the grid.

pub mod geometry;
pub mod shapes;
pub mod board;

pub use board::Board;
pub use board::ShapeInstace;
pub use shapes::Shape;
