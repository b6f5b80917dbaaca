//! A cooperative resource-management simulation played over a sequence of
//! in-game years. Three fixed roles jointly keep a colony alive: each year
//! they gain resources from undamaged facilities, face randomly dealt event
//! problems that must be paid off with resources or canceled with bonus
//! cards, and spend leftover resources building more facilities.

pub mod cards;
pub mod roles;
pub mod shuffle;
pub mod game;
pub mod setup;
