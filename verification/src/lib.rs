//! Game logic for "Which Bowl is the Fish In?": the fish catalog with its
//! validation and selection rules, the rarity table, and the round state
//! machine that decides what a click on a bowl does.

pub mod fish;
pub mod round;
pub mod text;
