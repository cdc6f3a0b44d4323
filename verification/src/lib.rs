//! Gamut-boundary tables for colour pickers.
//!
//! A colour model is sampled on a cubic grid of `resolution` points per channel. For each channel
//! held fixed at each grid value, the grid points of the remaining plane whose colour a display
//! can show are reduced to their bounding box. The arithmetic on colours is left to the caller,
//! who hands in a transfer function from grid coordinates to the bit patterns of linear RGB
//! components; everything that is decided from those bit patterns is decided here.

pub mod binary32;
pub mod extent;
pub mod extremum;
pub mod grid;
pub mod limits;
pub mod model;
pub mod rgb;
pub mod sampler;
pub mod table;
pub mod wire;
