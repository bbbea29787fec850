//! An agent-based foraging simulation: a uniform grid over a 2-D arena, a
//! radius-bounded visibility query pruned by that grid, and the per-tick
//! decision engine of the agents ("bodies").
//!
//! All quantities are integers: positions and distances are in arena units,
//! energies in energy units, and rates and chances are fractions of
//! `config::RATE_ONE`.

pub mod birth;
pub mod body;
pub mod condition;
pub mod config;
pub mod engine;
pub mod food;
pub mod geometry;
pub mod grid;
pub mod metabolism;
pub mod movement;
pub mod random;
pub mod skills;
pub mod spawn;
pub mod store;
pub mod visibility;
pub mod world;
