//! Simulation core of a tower-defense round: hostiles spawn outside a ring
//! around the origin and converge on a tracked point, placed towers fire at
//! them on a cooldown, and score, currency and upgrade levels feed back into
//! the next round.
//!
//! Every quantity is an integer. Lengths, health, damage and currency are
//! fixed-point numbers with six decimal places (`1_000_000` stands for `1.0`);
//! time is counted in microseconds.

pub mod economy;
pub mod geometry;
pub mod timer;
pub mod enemy;
pub mod mouse;
pub mod tower;
pub mod bullet;
pub mod round;
pub mod game;
