//! String-art reconstruction: chord cache and residual-guided search.
//!
//! The library turns a square grayscale target canvas into an ordered
//! sequence of pin indices. Straight chords drawn between consecutive pins,
//! each chord darkening the pixels it crosses by a fixed weight, reconstruct
//! the target when rendered. Intensities are held as fixed-point integers
//! (`UNIT` is pure white); pin coordinates are fixed-point subpixel values
//! (`COORD_SCALE` units per pixel) supplied by the caller.

use vstd::prelude::*;

pub mod canvas;
pub mod config;
pub mod coord;
pub mod genetic;
pub mod line_cache;
pub mod raster;
pub mod render;
mod rng;
pub mod tabu;

verus! {

/// Fixed-point intensity of pure white; target canvas values lie in `[0, UNIT]`.
pub const UNIT: i64 = 1048576;

/// Magnitude bound for every stored intensity; residual values saturate here.
pub const MAX_MAG: i64 = 0x4000_0000_0000_0000;

/// Fixed-point subpixel units per pixel for pin coordinates.
pub const COORD_SCALE: u64 = 1024;

/// Largest admitted coordinate value, `MAX_SIZE * COORD_SCALE`.
pub const MAX_COORD: u64 = 0x100_0000;

/// Largest admitted canvas dimension.
pub const MAX_SIZE: usize = 16384;

/// Upper bound on the sample-step count of any admissible chord.
pub const MAX_STEPS: u64 = 32768;

/// Denominator of the fixed-point probabilities (crossover and mutation rates).
pub const RATE_SCALE: u64 = 1048576;

/// Largest admitted number of chords in one search run.
pub const MAX_LINES: usize = 0x1000_0000;

} // verus!
