//! Board logic of a multiplayer falling-block puzzle game: piece geometry,
//! movement with wall kicks, line clears, garbage lines and attacks.

pub mod rules;
pub mod block;
pub mod protocol;
pub mod replay;
pub mod random_generator;
pub mod garbage_attack_manager;
pub mod display;
pub mod board;
pub mod client;
pub mod laws;
