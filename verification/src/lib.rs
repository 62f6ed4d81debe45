//! Simulation core of a small real-time multiplayer 2D platformer.
//!
//! The engine advances the world in fixed ticks. Each tick it resolves
//! hit-scan bullets, then integrates every live player against the other
//! players, the static platforms, the portal doors and the room bounds,
//! using a swept (continuous) axis-aligned collision test.
//!
//! All geometry is carried in integer sub-units (`COORD_SCALE` sub-units per
//! world unit) and times of impact are exact fractions of a tick, so every
//! collision decision here is exact: there is no rounding anywhere in the
//! collision pipeline.

pub mod bullet;
pub mod chain;
pub mod entity;
pub mod frac;
pub mod game;
pub mod input;
pub mod ray;
pub mod rng;
pub mod room;
pub mod user;

pub use entity::Entity;
pub use frac::Frac;
pub use frac::XTime;
