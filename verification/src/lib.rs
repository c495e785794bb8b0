//! A two-dimensional flock of boids on integer fixed-point coordinates.
//!
//! Every scalar is an `i64` that counts millionths of a unit ([`fixed::ONE`]
//! stands for 1.0), so that sums, means and comparisons are exact and each
//! rounding step is part of a function's contract.

pub mod fixed;
pub mod vector;
pub mod boid;
pub mod index;
pub mod neighbors;
pub mod rules;
pub mod motion;
pub mod flock;
