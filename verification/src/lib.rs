//! Rules and game state for the Whiskey trick-taking card game.

pub mod card;
pub mod card_order;
pub mod hand;
pub mod game_options;
pub mod scoring;
pub mod trick;
pub mod game;
pub mod random;
pub mod bot_monte;
pub mod simulation;
pub mod combos;
pub mod controller;
pub mod laws;
pub mod conservation;
pub mod readiness;
