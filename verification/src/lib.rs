//! A 4×4 sliding-tile puzzle: the tile grid with its move rules, the
//! solvability-preserving shuffle, the mapping from pointer pixels to cells,
//! and the geometry that a frame draws.
//!
//! Everything here is plain data in and plain data out; the embedding program
//! owns the canvas, the graphics device and the event loop.

pub mod grid;
pub mod input;
pub mod parity;
pub mod puzzle;
pub mod render;
pub mod shuffle;
pub mod text;
pub mod walk;
