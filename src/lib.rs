//! Matchmaking and session registry for a two-player board game: a waiting
//! list, participant and room registries, and the coin-flip tournament that
//! decides who moves first in each season.

pub mod ids;
mod random;
pub mod registry;
pub mod types;
