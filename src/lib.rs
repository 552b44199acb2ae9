//! The item identification codec of a game-companion chat bot: decoding the
//! compact strings that carry an item's stat rolls, powders and reroll count
//! into a breakdown of values and roll qualities, and building the string of
//! an item's best roll; with the item and configuration types and the small
//! computations that the bot's other commands rest on.
pub mod codec;
pub mod config;
pub mod display;
pub mod gather;
pub mod grammar;
pub mod identification;
pub mod item;
pub mod order;
pub mod powder;
pub mod roll;
pub mod servers;
pub mod territory;
