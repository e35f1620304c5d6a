//! Per-opening chess game statistics.
//!
//! The library turns raw per-game records (PGN text plus per-color outcome
//! data) into a per-opening summary map: game count, an outcome histogram,
//! the ECO code and URL of the opening, and a running pairwise-averaged
//! accuracy. Parsing of PGN header tags, classification of the target
//! player's side, opening-name resolution and the merge rules are all
//! verified; network retrieval, command-line handling and JSON rendering
//! live outside the library.

pub mod classify;
pub mod entry;
pub mod game;
pub mod opening;
pub mod kvmap;
pub mod periods;
pub mod pipeline;
pub mod results;
pub mod tags;
