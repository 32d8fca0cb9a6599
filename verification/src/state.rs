//! Game state: geometry, unit catalog, entities, deferred actions, and the
//! tick engine.

pub mod actions;
pub mod entities;
pub mod game;
pub mod laws;
pub mod projectiles;
pub mod units;
pub mod utils;
