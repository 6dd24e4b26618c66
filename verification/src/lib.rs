//! A 2-D flocking ("boids") simulation with verified dynamics.
//!
//! All quantities are fixed-point: an `i64` counts thousandths of a world
//! unit, so `1500` stands for one and a half units.

pub mod boids;
pub mod fx;
pub mod index;
pub mod laws;
pub mod settings;
pub mod vec2;

pub use fx::SCALE;
