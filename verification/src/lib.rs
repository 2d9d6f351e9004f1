//! Game logic of a falling-pairs puzzle: the playing field, chains and
//! their score, garbage ("ojama") blocks sent between two players, and the
//! small state machines of the menus around a match.

pub mod grid;
pub mod groups;
pub mod chain;
pub mod gravity;
pub mod field;
pub mod piece;
pub mod keys;
pub mod moving;
pub mod generator;
pub mod rng;
pub mod game_statics;
pub mod ojama;
pub mod steps;
pub mod frames;
pub mod menus;
pub mod ready;
