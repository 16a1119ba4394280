//! Rules engine for a Mafia-style social deduction game: a roster of players
//! with secret roles, day votes resolved into eliminations, night actions
//! resolved in a fixed order, and a win check after every elimination.
pub mod role;
pub mod protocol;
pub mod player;
pub mod phase;
pub mod event;
pub mod tally;
pub mod night;
pub mod game;
pub mod action;
pub mod laws;
