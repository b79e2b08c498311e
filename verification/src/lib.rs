//! Metrolti: the simulation engine of a cooperative metro-construction game.
//!
//! The world model, the train controller, the passenger router, the spawner
//! and the lobby/game state machine are verified; sockets, threads, clocks
//! and the wire encoding live with the program that embeds this library.

pub mod geometry;
pub mod player_id;
pub mod seqs;
pub mod station;
pub mod line;
pub mod train;
pub mod model;
pub mod router;
pub mod controller;
pub mod randoms;
pub mod spawner;
pub mod events;
pub mod metro_game;
pub mod ticks;
pub mod laws;
pub mod rails;
