//! Proximity statistics for point datasets: nearest-station distances,
//! stations-within-radius counts, population mass within distance
//! thresholds, and quartile-based quadrant classification.
//!
//! Coordinates are planar projected units (metres) held as integers;
//! all distance comparisons use squared distances throughout, so no
//! square root is ever taken.

pub mod cumulative;
pub mod geometry;
pub mod index;
pub mod loader;
pub mod matrix;
pub mod numbers;
pub mod quadrants;
pub mod query;
pub mod records;
pub mod stats;
pub mod stream;
