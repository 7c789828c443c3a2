//! A self-similar raster generator built on the symmetry algebra of a 2x2
//! grid.
//!
//! A seed [`pattern::Pattern`] of four colored, oriented cells is expanded
//! level by level: each cell is replaced by the seed pattern permuted under
//! the cell's accumulated orientation and blended with the cell's own color.
//! Color channels are fixed-point values in millionths of the unit interval,
//! so every arithmetic step of the engine has an exact, machine-checked
//! meaning.

pub mod color;
pub mod generator;
pub mod pattern;
pub mod symmetry;
