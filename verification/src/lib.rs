//! Windowed co-occurrence ("affinity") analysis over 8-bit images.
//!
//! For each pixel the library examines a small neighborhood window
//! (3x3 in the interior, shrinking to 2x3 / 3x2 / 2x2 at the borders),
//! tallies how often distinct intensity values co-occur inside the
//! overlapping 2x2 sub-windows of that neighborhood, scores value pairs
//! by an affinity metric, and emits the absolute difference of the
//! winning pair as the output pixel.

pub mod affinity;
pub mod filters;
pub mod freq;
pub mod grid;
pub mod paths;
pub mod saturate;
pub mod score;
pub mod window;
