//! A single-column falling-blocks game whose pieces are made of primary
//! colours that mix when they land on each other.
//!
//! The library holds the game's rules (colour mixing, falling, landing,
//! line clearing, scoring and speed); the terminal front end lives in `app/`.
pub mod display;
pub mod board;
pub mod game;
pub mod laws;
