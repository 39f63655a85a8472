//! Simulation core for a garden-defense clicker game: dandelion enemies
//! spawn, grow, merge and are destroyed by clicks, slashes, rabbits and
//! chain-reacting fire, while a score ledger and a level table track
//! progress. All geometry and timing is integer fixed-point: positions in
//! whole world units, radii in tenths of a unit, durations in milliseconds.

pub mod field;
pub mod fire;
pub mod geom;
pub mod levels;
pub mod math;
pub mod motion;
pub mod powerups;
pub mod rabbits;
pub mod rng;
pub mod score;
pub mod spawning;
pub mod tiers;
pub mod timer;

pub use math::isqrt;
pub use tiers::DandelionSize;
pub use timer::Countdown;
