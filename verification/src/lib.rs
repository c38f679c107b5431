//! The rules and the course of a card game of attack and defense for two to
//! nine players: cards and decks, the table with its piles, players that a
//! person or the program steers, and the game that lets them play round by
//! round. Whoever runs a game calls it step by step; the library reads no
//! input and prints nothing.

pub mod cards;
pub mod deck;
pub mod game;
pub mod hand;
pub mod keeping;
pub mod laws;
pub mod picture;
pub mod player;
pub mod random;
pub mod reading;
pub mod round;
pub mod seats;
pub mod table;
pub mod text;
pub mod utils;
