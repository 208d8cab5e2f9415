//! Reversible scrambling of raster images: the pixels are moved by a
//! permutation of the grid that a seed determines, and moved back by the
//! same permutation.
pub mod engine;
pub mod grid;
pub mod permutation;
pub mod raster;

pub use engine::{scramble, scramble_pixels, unscramble, unscramble_pixels};
pub use grid::{check_permutation, grid_positions};
pub use permutation::generate_permutation;
pub use raster::{PixelBuffer, Rgba, ScrambleError};
