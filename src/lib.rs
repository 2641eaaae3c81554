//! Gameplay simulation core of a 2D arcade shooter, on fixed-point values:
//! positions and extents in milli-units, time in microseconds, angles in
//! micro-radians.
pub mod geometry;
pub mod state;
pub mod formation;
pub mod world;
mod random;
