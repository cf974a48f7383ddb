//! Game module: game state, move application and tile spawning.

pub mod rng;
pub mod spawn;
pub mod state;

pub use state::{Game, IllegalMove};
