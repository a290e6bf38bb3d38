//! Skill ratings for a roster of players who meet in pairwise games.
//!
//! Ratings follow the Glicko-2 model and are computed by the `skillratings`
//! crate; the roster, the bookkeeping of results, the validation of stored
//! data and the rankings are verified here.

pub mod rating;
pub mod player;
pub mod system;
pub mod cli;
pub mod config;
