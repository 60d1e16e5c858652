//! A strategy engine for a two-player card-placement game on a 3x3 grid.
//!
//! The library holds the card model, the game state machine with its undo
//! history, and a move search (alpha-beta negamax followed by random playouts
//! among equally scored moves), each with its contract proved by Verus.
pub mod card;
pub mod data;
pub mod game;
pub mod laws;
pub mod layout;
pub mod search;
