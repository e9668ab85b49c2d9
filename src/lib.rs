//! A Texas Hold'em table: cards and deck, the betting-round state machine,
//! the action executor, winner resolution and the bot decision policy.

pub mod cards;
pub mod hand;
pub mod game;
pub mod text;
pub mod bot;
pub mod position;
pub mod showdown;
