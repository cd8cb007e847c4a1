//! A two-body gravitational simulation engine over fixed-point coordinates.
//!
//! Positions, velocities, masses and radii are held as scaled integers
//! (`SCALE` units to one physical unit), so every arithmetic step has an
//! exact, machine-checked description: forces obey Newton's third law
//! exactly, momentum drift per step is bounded by the rounding of the
//! velocity updates, and the collision resolver provably restores surface
//! contact and zeroes both velocities.

pub mod fixed;
pub mod planet;
pub mod sim;
pub mod vec3;
