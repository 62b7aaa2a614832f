//! Aggregation of flat music-track records into an artist / album / track
//! hierarchy, together with the flat game-library model that accompanies it.

pub mod agreement;
pub mod game;
pub mod invariants;
pub mod library;
pub mod pages;
pub mod parser;
pub mod ranking;
pub mod steam;
pub mod text;
pub mod track;
