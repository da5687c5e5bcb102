//! Core of a chat-bot command surface for a tabletop dice game: a
//! command-line tokenizer and argument parser, a fuzzy keyword resolver
//! over a fixed vocabulary, a dice-pool simulation engine, and an
//! equipment-durability decay model.
pub mod arsenal;
pub mod fuzzy;
pub mod mira;
pub mod outside;
pub mod parser;
pub mod resolve;
pub mod roll;
pub mod zug;
