//! Model and game-state machine of a daily word-grouping puzzle: sixteen
//! words in four hidden categories, shown shuffled on a 4×4 grid.

pub mod connections;
pub mod app;
