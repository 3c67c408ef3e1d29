//! A small arcade game core: a ship fires bubbles at drifting enemies.
//!
//! All quantities are fixed-point integers: lengths in milli-units,
//! velocities in milli-units per second, time in microseconds and health in
//! whole points.
pub mod fixed;
pub mod entity;
pub mod collision;
pub mod motion;
pub mod random;
pub mod render;
pub mod spawn;
pub mod world;
